//! The participants of a shared project, and what they tell each other.

use crate::effects::{BufferOrderedMessage, Effect, Event};
use crate::ids::{EntityId, LanguageServerId, PeerId, WorktreeId};
use crate::map::{key_at, lemma_entry, lemma_has_entry, SortedMap, SortedSet};
use crate::model::{AppContext, Worktree};
use crate::outside::random_nonce;
use crate::project::{
    Collaborator, LanguageServerStatus, OpenBuffer, Project, ProjectClientState, ProjectError,
    WorktreeHandle,
};
use crate::seqs::{
    find_map, lemma_filter_map_step, lemma_find_map_found, lemma_find_map_none, lemma_take_all,
};
use crate::servers::{fresh_status, is_fresh_status};
use crate::worktrees::metadata_changed_effects;
use vstd::prelude::*;

verus! {

/// The buffers that each participant has been sent.
pub open spec fn shared_map(m: SortedMap<PeerId, SortedSet<u64>>) -> Map<PeerId, Set<u64>> {
    m@.map_values(|s: SortedSet<u64>| s@)
}

/// A project without worktrees, buffers, servers and participants.
pub open spec fn is_blank(project: Project) -> bool {
    &&& has_done_nothing(project)
    &&& project.worktrees@.len() == 0
    &&& project.collaborators.entries().len() == 0
    &&& project.client_subscriptions@.len() == 0
}

/// A project in which nothing has been opened or started yet.
pub open spec fn has_done_nothing(project: Project) -> bool {
    &&& project.active_entry is None
    &&& project.supplementary_language_servers.entries().len() == 0
    &&& project.language_servers.entries().len() == 0
    &&& project.language_server_ids.entries().len() == 0
    &&& project.last_workspace_edits_by_language_server.entries().len() == 0
    &&& project.next_diagnostic_group_id == 0
    &&& project.next_buffer_id == 0
    &&& project.shared_buffers.entries().len() == 0
    &&& project.loading_buffers_by_path@ == Set::<crate::model::ProjectPathView>::empty()
    &&& project.loading_local_worktrees@ == Set::<Seq<crate::path::Part>>::empty()
    &&& project.opened_buffers.entries().len() == 0
    &&& project.local_buffer_ids_by_path.entries().len() == 0
    &&& project.local_buffer_ids_by_entry_id.entries().len() == 0
    &&& project.incomplete_remote_buffers.entries().len() == 0
    &&& project.buffer_snapshots.entries().len() == 0
    &&& project.buffers_being_formatted@ == Set::<u64>::empty()
    &&& project.buffers_needing_diff@ == Set::<EntityId>::empty()
    &&& !project.has_copilot_log_subscription
    &&& project.default_prettier is None
    &&& project.prettier_instances@ == Set::<(Option<WorktreeId>, Seq<crate::path::Part>)>::empty()
}

/// A server that a host has started, as a guest is told of it.
#[derive(Debug)]
pub struct ServerInfo {
    pub id: u64,
    pub name: String,
}

/// The name that the last of the first `n` servers with an id has.
pub open spec fn last_name(servers: Seq<ServerInfo>, n: int, id: LanguageServerId) -> Option<String>
    decreases n,
{
    if n <= 0 {
        None
    } else if LanguageServerId(servers[n - 1].id as usize) == id {
        Some(servers[n - 1].name)
    } else {
        last_name(servers, n - 1, id)
    }
}

/// The statuses of servers that nothing else is known of.
pub open spec fn are_fresh_statuses(
    statuses: Map<LanguageServerId, LanguageServerStatus>,
    servers: Seq<ServerInfo>,
    n: int,
) -> bool {
    forall|id: LanguageServerId|
        match last_name(servers, n, id) {
            Some(name) => #[trigger] statuses.contains_key(id) && is_fresh_status(
                statuses[id],
                name,
            ),
            None => !statuses.contains_key(id),
        }
}

pub(crate) fn statuses_of(servers: Vec<ServerInfo>) -> (r: SortedMap<LanguageServerId, LanguageServerStatus>)
    ensures
        are_fresh_statuses(r@, servers@, servers@.len() as int),
{
    let mut r: SortedMap<LanguageServerId, LanguageServerStatus> = SortedMap::new();
    for i in 0..servers.len()
        invariant
            are_fresh_statuses(r@, servers@, i as int),
    {
        let server = &servers[i];
        let id = LanguageServerId(
            #[verifier::truncate]
            (server.id as usize),
        );
        let ghost before = r@;
        r.insert(id, fresh_status(server.name.clone()));
        proof {
            assert forall|k: LanguageServerId|
                match last_name(servers@, i + 1, k) {
                    Some(name) => #[trigger] r@.contains_key(k) && is_fresh_status(r@[k], name),
                    None => !r@.contains_key(k),
                } by {
                if k != id {
                    assert(r@.contains_key(k) == before.contains_key(k));
                }
            }
        }
    }
    r
}

impl Project {
    fn blank(
        nonce: u128,
        client_state: Option<ProjectClientState>,
        current_lsp_settings: SortedMap<String, String>,
        has_node: bool,
        has_copilot_subscription: bool,
    ) -> (r: Self)
        ensures
            is_blank(r),
            r.language_server_statuses.entries().len() == 0,
            r.join_project_response_message_id == 0,
            r.nonce == nonce,
            r.client_state == client_state,
            r.current_lsp_settings == current_lsp_settings,
            r.has_node == has_node,
            r.has_copilot_subscription == has_copilot_subscription,
    {
        Project {
            worktrees: Vec::new(),
            active_entry: None,
            supplementary_language_servers: SortedMap::new(),
            language_servers: SortedMap::new(),
            language_server_ids: SortedMap::new(),
            language_server_statuses: SortedMap::new(),
            last_workspace_edits_by_language_server: SortedMap::new(),
            join_project_response_message_id: 0,
            next_diagnostic_group_id: 0,
            client_state,
            collaborators: SortedMap::new(),
            client_subscriptions: Vec::new(),
            next_buffer_id: 0,
            shared_buffers: SortedMap::new(),
            loading_buffers_by_path: SortedSet::new(),
            loading_local_worktrees: SortedSet::new(),
            opened_buffers: SortedMap::new(),
            local_buffer_ids_by_path: SortedMap::new(),
            local_buffer_ids_by_entry_id: SortedMap::new(),
            incomplete_remote_buffers: SortedMap::new(),
            buffer_snapshots: SortedMap::new(),
            buffers_being_formatted: SortedSet::new(),
            buffers_needing_diff: SortedSet::new(),
            nonce,
            current_lsp_settings,
            has_node,
            has_copilot_subscription,
            has_copilot_log_subscription: false,
            default_prettier: None,
            prettier_instances: SortedSet::new(),
        }
    }

    /// A new project of this user, with a nonce by which it recognises symbols that it has sent.
    pub fn local(
        current_lsp_settings: SortedMap<String, String>,
        has_copilot_subscription: bool,
    ) -> (r: Self)
        ensures
            is_blank(r),
            r.snapshots_ordered(),
            r.language_server_statuses.entries().len() == 0,
            r.join_project_response_message_id == 0,
            r.client_state is None,
            r.current_lsp_settings == current_lsp_settings,
            r.has_node,
            r.has_copilot_subscription == has_copilot_subscription,
    {
        Project::local_with_nonce(random_nonce(), current_lsp_settings, has_copilot_subscription)
    }

    /// A new project of this user with a given nonce.
    pub fn local_with_nonce(
        nonce: u128,
        current_lsp_settings: SortedMap<String, String>,
        has_copilot_subscription: bool,
    ) -> (r: Self)
        ensures
            is_blank(r),
            r.snapshots_ordered(),
            r.language_server_statuses.entries().len() == 0,
            r.join_project_response_message_id == 0,
            r.nonce == nonce,
            r.client_state is None,
            r.current_lsp_settings == current_lsp_settings,
            r.has_node,
            r.has_copilot_subscription == has_copilot_subscription,
    {
        let r = Project::blank(nonce, None, current_lsp_settings, true, has_copilot_subscription);
        proof {
            lemma_blank_has_no_snapshots(r);
        }
        r
    }
}

proof fn lemma_blank_has_no_snapshots(project: Project)
    requires
        project.buffer_snapshots.entries().len() == 0,
    ensures
        project.snapshots_ordered(),
{
    assert forall|k: (u64, LanguageServerId)| #[trigger]
        crate::snapshots::snapshot_map(project.buffer_snapshots).contains_key(k) implies false by {
        let i = choose|i: int| key_at(project.buffer_snapshots.entries(), k.0, i);
        assert(key_at(project.buffer_snapshots.entries(), k.0, i));
    }
}

/// The answer to a request to join a project.
#[derive(Debug)]
pub struct JoinProjectResponse {
    pub message_id: u32,
    pub replica_id: u32,
    pub language_servers: Vec<ServerInfo>,
    pub collaborators: Vec<CollaboratorInfo>,
}

/// A participant, as a message describes it.
#[derive(Clone, Copy, Debug, PartialEq, Eq, Structural)]
pub struct CollaboratorInfo {
    pub peer_id: Option<PeerId>,
    pub replica_id: u32,
    pub user_id: u64,
}

pub open spec fn collaborator_of(info: CollaboratorInfo) -> Result<Collaborator, ProjectError> {
    match info.peer_id {
        Some(peer_id) => Ok(
            Collaborator { peer_id, replica_id: info.replica_id as u16, user_id: info.user_id },
        ),
        None => Err(ProjectError::MissingPeerId),
    }
}

impl Collaborator {
    /// The participant that a message describes; replica ids beyond 16 bits lose their upper bits.
    pub fn from_proto(info: CollaboratorInfo) -> (r: Result<Self, ProjectError>)
        ensures
            r == collaborator_of(info),
    {
        match info.peer_id {
            Some(peer_id) => Ok(
                Collaborator {
                    peer_id,
                    replica_id: #[verifier::truncate]
                    (info.replica_id as u16),
                    user_id: info.user_id,
                },
            ),
            None => Err(ProjectError::MissingPeerId),
        }
    }
}

/// What a guest's project tells when `n` worktrees are added to it.
pub open spec fn added_effects(n: nat) -> Seq<Effect> {
    Seq::new(
        2 * n,
        |i: int|
            if i % 2 == 0 {
                Effect::Emit(Event::WorktreeAdded)
            } else {
                Effect::Notify
            },
    )
}

/// The participants that the first `n` messages describe.
pub open spec fn collaborators_of(infos: Seq<CollaboratorInfo>, n: int) -> Map<PeerId, Collaborator>
    decreases n,
{
    if n <= 0 {
        Map::empty()
    } else {
        match collaborator_of(infos[n - 1]) {
            Ok(c) => collaborators_of(infos, n - 1).insert(c.peer_id, c),
            Err(_) => collaborators_of(infos, n - 1),
        }
    }
}

/// Each message names a participant.
pub open spec fn all_have_peer_ids(infos: Seq<CollaboratorInfo>, n: int) -> bool {
    forall|i: int| 0 <= i < n ==> (#[trigger] infos[i]).peer_id is Some
}

/// The event for a participant that is not among the new ones.
pub open spec fn left_event(now: Map<PeerId, Collaborator>) -> spec_fn(
    (PeerId, Collaborator),
) -> Option<Effect> {
    |e: (PeerId, Collaborator)|
        if now.contains_key(e.0) {
            None
        } else {
            Some(Effect::Emit(Event::CollaboratorLeft(e.0)))
        }
}

impl Project {
    /// Replaces the participants, and tells of those who are no longer there.
    pub fn set_collaborators_from_proto(
        &mut self,
        infos: &Vec<CollaboratorInfo>,
        out: &mut Vec<Effect>,
    ) -> (r: Result<(), ProjectError>)
        ensures
            ({
                let n = infos@.len() as int;
                let now = collaborators_of(infos@, n);
                if all_have_peer_ids(infos@, n) {
                    &&& r is Ok
                    &&& final(self).collaborators@ == now
                    &&& *final(self) == (Project {
                        collaborators: final(self).collaborators,
                        ..*old(self)
                    })
                    &&& final(out)@ == old(out)@ + old(self).collaborators.entries().filter_map(
                        left_event(now),
                    )
                } else {
                    &&& r == Err::<(), ProjectError>(ProjectError::MissingPeerId)
                    &&& *final(self) == *old(self)
                    &&& final(out)@ == old(out)@
                }
            }),
    {
        let mut collaborators: SortedMap<PeerId, Collaborator> = SortedMap::new();
        for i in 0..infos.len()
            invariant
                *self == *old(self),
                out@ == old(out)@,
                all_have_peer_ids(infos@, i as int),
                collaborators@ == collaborators_of(infos@, i as int),
        {
            match Collaborator::from_proto(infos[i]) {
                Ok(c) => {
                    collaborators.insert(c.peer_id, c);
                },
                Err(e) => {
                    assert(infos@[i as int].peer_id is None);
                    return Err(e);
                },
            }
        }
        let ghost s = self.collaborators.entries();
        let ghost f = left_event(collaborators@);
        let n: usize = self.collaborators.len();
        proof {
            lemma_take_all(s);
            assert(out@ + Seq::<Effect>::empty() =~= out@);
        }
        for i in 0..n
            invariant
                *self == *old(self),
                s == self.collaborators.entries(),
                n == s.len(),
                f == left_event(collaborators@),
                out@ == old(out)@ + s.take(i as int).filter_map(f),
        {
            let ghost done = s.take(i as int).filter_map(f);
            proof {
                lemma_filter_map_step(s, f, i as int);
            }
            let id = *self.collaborators.key_of(i);
            if !collaborators.contains_key(&id) {
                out.push(Effect::Emit(Event::CollaboratorLeft(id)));
                assert(out@ =~= old(out)@ + done.push(Effect::Emit(Event::CollaboratorLeft(id))));
            }
        }
        self.collaborators = collaborators;
        Ok(())
    }

    /// A project that another participant hosts. `worktrees` are the worktrees that the answer to
    /// the request to join describes.
    pub fn remote(
        remote_id: u64,
        response: JoinProjectResponse,
        worktrees: &Vec<Worktree>,
        current_lsp_settings: SortedMap<String, String>,
        has_copilot_subscription: bool,
        out: &mut Vec<Effect>,
    ) -> (r: Result<Self, ProjectError>)
        requires
            forall|i: int| 0 <= i < worktrees@.len() ==> !(#[trigger] worktrees@[i]).is_local,
        ensures
            r is Ok == all_have_peer_ids(
                response.collaborators@,
                response.collaborators@.len() as int,
            ),
            r is Err ==> r == Err::<Project, ProjectError>(ProjectError::MissingPeerId),
            r matches Ok(project) ==> {
                &&& project.client_state == Some(
                    ProjectClientState::Remote {
                        sharing_has_stopped: false,
                        remote_id,
                        replica_id: response.replica_id as u16,
                    },
                )
                &&& project.join_project_response_message_id == response.message_id
                &&& are_fresh_statuses(
                    project.language_server_statuses@,
                    response.language_servers@,
                    response.language_servers@.len() as int,
                )
                &&& project.worktrees@ == worktrees@.map_values(
                    |w: Worktree| WorktreeHandle::Strong(w.entity_id),
                )
                &&& project.collaborators@ == collaborators_of(
                    response.collaborators@,
                    response.collaborators@.len() as int,
                )
                &&& project.current_lsp_settings == current_lsp_settings
                &&& !project.has_node
                &&& project.has_copilot_subscription == has_copilot_subscription
                &&& project.client_subscriptions@ == seq![remote_id]
                &&& has_done_nothing(project)
                &&& project.snapshots_ordered()
            },
            final(out)@ == old(out)@ + added_effects(worktrees@.len()),
    {
        let state = ProjectClientState::Remote {
            sharing_has_stopped: false,
            remote_id,
            replica_id: #[verifier::truncate]
            (response.replica_id as u16),
        };
        let mut project = Project::blank(
            random_nonce(),
            Some(state),
            current_lsp_settings,
            false,
            has_copilot_subscription,
        );
        project.join_project_response_message_id = response.message_id;
        project.language_server_statuses = statuses_of(response.language_servers);
        let ghost base = project;
        assert(out@ + added_effects(0) =~= out@);
        let ghost f = |w: Worktree| WorktreeHandle::Strong(w.entity_id);
        for i in 0..worktrees.len()
            invariant
                forall|k: int| 0 <= k < worktrees@.len() ==> !(#[trigger] worktrees@[k]).is_local,
                f == (|w: Worktree| WorktreeHandle::Strong(w.entity_id)),
                project == (Project { worktrees: project.worktrees, ..base }),
                project.worktrees@ == worktrees@.take(i as int).map_values(f),
                base.client_state == Some(state),
                is_blank(base),
                state is Remote,
                out@ == old(out)@ + added_effects(i as nat),
        {
            assert(!worktrees@[i as int].is_local);
            project.add_worktree(&worktrees[i], out);
            assert(project.worktrees@ =~= worktrees@.take(i + 1).map_values(f));
            assert(out@ =~= old(out)@ + added_effects((i + 1) as nat));
        }
        assert(worktrees@.take(worktrees@.len() as int) =~= worktrees@);
        proof {
            lemma_blank_has_no_snapshots(project);
        }
        proof {
            let none = project.collaborators.entries();
            assert(none =~= Seq::empty());
            let now = collaborators_of(
                response.collaborators@,
                response.collaborators@.len() as int,
            );
            assert(none.filter_map(left_event(now)) =~= Seq::<Effect>::empty());
            assert(out@ + Seq::<Effect>::empty() =~= out@);
        }
        match project.set_collaborators_from_proto(&response.collaborators, out) {
            Ok(()) => {
                project.client_subscriptions.push(remote_id);
                assert(project.client_subscriptions@ =~= seq![remote_id]);
                Ok(project)
            },
            Err(e) => Err(e),
        }
    }

    pub fn collaborators(&self) -> (r: Vec<Collaborator>)
        ensures
            r@ == self.collaborators.entries().map_values(|e: (PeerId, Collaborator)| e.1),
    {
        let mut r: Vec<Collaborator> = Vec::new();
        let ghost all = self.collaborators.entries().map_values(|e: (PeerId, Collaborator)| e.1);
        let n: usize = self.collaborators.len();
        for i in 0..n
            invariant
                n == self.collaborators.entries().len(),
                all == self.collaborators.entries().map_values(|e: (PeerId, Collaborator)| e.1),
                r@ == all.take(i as int),
        {
            r.push(*self.collaborators.value_of(i));
            assert(r@ =~= all.take(i + 1));
        }
        assert(r@ =~= all);
        r
    }

    /// The participant who hosts the project.
    pub fn host(&self) -> (r: Option<Collaborator>)
        ensures
            r == find_map(self.collaborators.entries(), hosting()),
    {
        let n: usize = self.collaborators.len();
        let ghost s = self.collaborators.entries();
        for i in 0..n
            invariant
                s == self.collaborators.entries(),
                n == s.len(),
                forall|j: int| 0 <= j < i ==> hosting()(#[trigger] s[j]) is None,
        {
            assert(s[i as int] == self.collaborators.entries()[i as int]);
            let c = *self.collaborators.value_of(i);
            if c.replica_id == 0 {
                proof {
                    lemma_find_map_found(s, hosting(), i as int);
                }
                return Some(c);
            }
        }
        proof {
            lemma_find_map_none(s, hosting());
        }
        None
    }

    /// Handles the message that a participant has joined.
    pub fn handle_add_collaborator(
        &mut self,
        info: Option<CollaboratorInfo>,
        out: &mut Vec<Effect>,
    ) -> (r: Result<(), ProjectError>)
        ensures
            match info {
                None => r == Err::<(), ProjectError>(ProjectError::MissingCollaborator)
                    && *final(self) == *old(self) && final(out)@ == old(out)@,
                Some(info) => match collaborator_of(info) {
                    Err(e) => r == Err::<(), ProjectError>(e) && *final(self) == *old(self)
                        && final(out)@ == old(out)@,
                    Ok(c) => {
                        &&& r is Ok
                        &&& final(self).shared_buffers@ == old(self).shared_buffers@.remove(
                            c.peer_id,
                        )
                        &&& final(self).collaborators@ == old(self).collaborators@.insert(
                            c.peer_id,
                            c,
                        )
                        &&& *final(self) == (Project {
                            shared_buffers: final(self).shared_buffers,
                            collaborators: final(self).collaborators,
                            ..*old(self)
                        })
                        &&& final(out)@ == old(out)@ + seq![
                            Effect::Emit(Event::CollaboratorJoined(c.peer_id)),
                            Effect::Notify,
                        ]
                    },
                },
            },
    {
        let info = match info {
            Some(info) => info,
            None => return Err(ProjectError::MissingCollaborator),
        };
        let c = match Collaborator::from_proto(info) {
            Ok(c) => c,
            Err(e) => return Err(e),
        };
        self.shared_buffers.remove(&c.peer_id);
        out.push(Effect::Emit(Event::CollaboratorJoined(c.peer_id)));
        self.collaborators.insert(c.peer_id, c);
        out.push(Effect::Notify);
        assert(out@ =~= old(out)@ + seq![
            Effect::Emit(Event::CollaboratorJoined(c.peer_id)),
            Effect::Notify,
        ]);
        Ok(())
    }
}

pub open spec fn hosting() -> spec_fn((PeerId, Collaborator)) -> Option<Collaborator> {
    |e: (PeerId, Collaborator)|
        if e.1.replica_id == 0 {
            Some(e.1)
        } else {
            None
        }
}

/// The buffers of a map that have more to them than operations waiting.
pub open spec fn arrived(buffers: Map<u64, OpenBuffer>) -> Map<u64, OpenBuffer> {
    Map::new(
        |id: u64| buffers.contains_key(id) && !(buffers[id] is Operations),
        |id: u64| buffers[id],
    )
}

pub open spec fn moved<V>(m: Map<PeerId, V>, from: PeerId, to: PeerId) -> Map<PeerId, V> {
    if m.contains_key(from) {
        m.remove(from).insert(to, m[from])
    } else {
        m
    }
}

impl Project {
    /// Forgets the buffers that nothing but operations has come of.
    fn drop_waiting_operations(&mut self)
        ensures
            final(self).opened_buffers@ == arrived(old(self).opened_buffers@),
            *final(self) == (Project { opened_buffers: final(self).opened_buffers, ..*old(self) }),
    {
        let n: usize = self.opened_buffers.len();
        let ghost e = self.opened_buffers.entries();
        let ghost m = self.opened_buffers@;
        let mut i: usize = 0;
        let mut j: usize = 0;
        assert(e.skip(0) =~= e);
        while j < n
            invariant
                crate::map::sorted(e),
                m == crate::map::entries_map(e),
                n == e.len(),
                j <= n,
                i <= j,
                i + (n - j) == self.opened_buffers.entries().len(),
                self.opened_buffers.entries().skip(i as int) == e.skip(j as int),
                forall|k: u64| #[trigger]
                    self.opened_buffers@.contains_key(k) <==> m.contains_key(k) && !waits(
                        e,
                        j as int,
                        k,
                    ),
                forall|k: u64| #[trigger]
                    self.opened_buffers@.contains_key(k) ==> self.opened_buffers@[k] == m[k],
                *self == (Project { opened_buffers: self.opened_buffers, ..*old(self) }),
            decreases n - j,
        {
            let ghost cur = self.opened_buffers.entries();
            proof {
                assert(cur.skip(i as int)[0] == cur[i as int]);
                assert(e.skip(j as int)[0] == e[j as int]);
                lemma_entry(e, j as int);
                assert(e.skip(j + 1) =~= e.skip(j as int).skip(1));
                assert forall|k: u64| #[trigger]
                    waits(e, j + 1, k) == (waits(e, j as int, k) || (e[j as int].0 == k
                        && e[j as int].1 is Operations)) by {
                    lemma_waits_step(e, j as int, k);
                }
            }
            let waiting = match self.opened_buffers.value_of(i) {
                OpenBuffer::Operations(_) => true,
                _ => false,
            };
            if waiting {
                let _ = self.opened_buffers.remove_at(i);
                assert(cur.remove(i as int).skip(i as int) =~= cur.skip(i as int).skip(1));
            } else {
                assert(cur.skip(i + 1) =~= cur.skip(i as int).skip(1));
                i = i + 1;
            }
            j = j + 1;
        }
        proof {
            assert forall|k: u64| #[trigger]
                self.opened_buffers@.contains_key(k) == arrived(m).contains_key(k) by {
                if m.contains_key(k) {
                    let a = lemma_has_entry(e, k);
                    if m[k] is Operations {
                        assert(waits_at(e, n as int, k, a));
                    }
                    if waits(e, n as int, k) {
                        let b = choose|b: int| waits_at(e, n as int, k, b);
                        lemma_entry(e, b);
                    }
                }
            }
            assert(self.opened_buffers@ =~= arrived(m));
        }
    }

    /// Handles the message that a participant goes by another id. Where it is the host, everything
    /// has to be synchronized anew.
    pub fn handle_update_project_collaborator(
        &mut self,
        old_peer_id: Option<PeerId>,
        new_peer_id: Option<PeerId>,
        out: &mut Vec<Effect>,
    ) -> (r: Result<(), ProjectError>)
        ensures
            old_peer_id is None || new_peer_id is None ==> {
                &&& r == Err::<(), ProjectError>(ProjectError::MissingPeerId)
                &&& *final(self) == *old(self)
                &&& final(out)@ == old(out)@
            },
            old_peer_id is Some && new_peer_id is Some ==> {
                let old_peer_id = old_peer_id->0;
                let new_peer_id = new_peer_id->0;
                let known = old(self).collaborators@;
                if !known.contains_key(old_peer_id) {
                    &&& r == Err::<(), ProjectError>(ProjectError::UnknownPeer)
                    &&& *final(self) == *old(self)
                    &&& final(out)@ == old(out)@
                } else {
                    let is_host = known[old_peer_id].replica_id == 0;
                    &&& r is Ok
                    &&& final(self).collaborators@ == moved(known, old_peer_id, new_peer_id)
                    &&& final(self).shared_buffers@ == moved(
                        old(self).shared_buffers@,
                        old_peer_id,
                        new_peer_id,
                    )
                    &&& final(self).opened_buffers@ == (if is_host {
                        arrived(old(self).opened_buffers@)
                    } else {
                        old(self).opened_buffers@
                    })
                    &&& *final(self) == (Project {
                        collaborators: final(self).collaborators,
                        shared_buffers: final(self).shared_buffers,
                        opened_buffers: final(self).opened_buffers,
                        ..*old(self)
                    })
                    &&& final(out)@ == old(out)@ + (if is_host {
                        seq![Effect::QueueMessage(BufferOrderedMessage::Resync)]
                    } else {
                        Seq::empty()
                    }) + seq![
                        Effect::Emit(Event::CollaboratorUpdated { old_peer_id, new_peer_id }),
                        Effect::Notify,
                    ]
                }
            },
    {
        let (old_peer_id, new_peer_id) = match (old_peer_id, new_peer_id) {
            (Some(a), Some(b)) => (a, b),
            _ => return Err(ProjectError::MissingPeerId),
        };
        let c = match self.collaborators.remove(&old_peer_id) {
            Some(c) => c,
            None => return Err(ProjectError::UnknownPeer),
        };
        let is_host = c.replica_id == 0;
        self.collaborators.insert(new_peer_id, c);
        if let Some(buffers) = self.shared_buffers.remove(&old_peer_id) {
            self.shared_buffers.insert(new_peer_id, buffers);
        }
        if is_host {
            self.drop_waiting_operations();
            out.push(Effect::QueueMessage(BufferOrderedMessage::Resync));
        }
        out.push(Effect::Emit(Event::CollaboratorUpdated { old_peer_id, new_peer_id }));
        out.push(Effect::Notify);
        assert(out@ =~= old(out)@ + (if is_host {
            seq![Effect::QueueMessage(BufferOrderedMessage::Resync)]
        } else {
            Seq::empty()
        }) + seq![
            Effect::Emit(Event::CollaboratorUpdated { old_peer_id, new_peer_id }),
            Effect::Notify,
        ]);
        Ok(())
    }
}

pub open spec fn waits_at(e: Seq<(u64, OpenBuffer)>, n: int, k: u64, a: int) -> bool {
    0 <= a < n && e[a].0 == k && e[a].1 is Operations
}

/// Nothing but operations has come of the buffer `k`, which is among the first `n`.
pub open spec fn waits(e: Seq<(u64, OpenBuffer)>, n: int, k: u64) -> bool {
    exists|a: int| waits_at(e, n, k, a)
}

proof fn lemma_waits_step(e: Seq<(u64, OpenBuffer)>, n: int, k: u64)
    requires
        0 <= n < e.len(),
    ensures
        waits(e, n + 1, k) == (waits(e, n, k) || (e[n].0 == k && e[n].1 is Operations)),
{
    let m = n + 1;
    if waits(e, m, k) {
        let a = choose|a: int| waits_at(e, m, k, a);
        if a < n {
            assert(waits_at(e, n, k, a));
        }
    }
    if waits(e, n, k) {
        let a = choose|a: int| waits_at(e, n, k, a);
        assert(waits_at(e, m, k, a));
    }
    if e[n].0 == k && e[n].1 is Operations {
        assert(waits_at(e, m, k, n));
    }
}

pub open spec fn remove_peer_effect(cx: AppContext, replica_id: u16) -> spec_fn(
    (u64, OpenBuffer),
) -> Option<Effect> {
    |e: (u64, OpenBuffer)|
        match e.1.live(cx) {
            Some(b) => Some(Effect::RemovePeer { buffer: b.entity_id, replica_id }),
            None => None,
        }
}

impl Project {
    /// Handles the message that a participant has left.
    pub fn handle_remove_collaborator(
        &mut self,
        peer_id: Option<PeerId>,
        cx: &AppContext,
        out: &mut Vec<Effect>,
    ) -> (r: Result<(), ProjectError>)
        ensures
            match peer_id {
                None => r == Err::<(), ProjectError>(ProjectError::MissingPeerId) && *final(self)
                    == *old(self) && final(out)@ == old(out)@,
                Some(id) => if !old(self).collaborators@.contains_key(id) {
                    r == Err::<(), ProjectError>(ProjectError::UnknownPeer) && *final(self)
                        == *old(self) && final(out)@ == old(out)@
                } else {
                    &&& r is Ok
                    &&& final(self).collaborators@ == old(self).collaborators@.remove(id)
                    &&& final(self).shared_buffers@ == old(self).shared_buffers@.remove(id)
                    &&& *final(self) == (Project {
                        collaborators: final(self).collaborators,
                        shared_buffers: final(self).shared_buffers,
                        ..*old(self)
                    })
                    &&& final(out)@ == old(out)@ + old(self).opened_buffers.entries().filter_map(
                        remove_peer_effect(*cx, old(self).collaborators@[id].replica_id),
                    ) + seq![Effect::Emit(Event::CollaboratorLeft(id)), Effect::Notify]
                },
            },
    {
        let peer_id = match peer_id {
            Some(id) => id,
            None => return Err(ProjectError::MissingPeerId),
        };
        let replica_id: u16 = match self.collaborators.remove(&peer_id) {
            Some(c) => c.replica_id,
            None => return Err(ProjectError::UnknownPeer),
        };
        let ghost s = self.opened_buffers.entries();
        let ghost f = remove_peer_effect(*cx, replica_id);
        let n: usize = self.opened_buffers.len();
        proof {
            lemma_take_all(s);
            assert(out@ + Seq::<Effect>::empty() =~= out@);
        }
        for i in 0..n
            invariant
                s == self.opened_buffers.entries(),
                n == s.len(),
                f == remove_peer_effect(*cx, replica_id),
                out@ == old(out)@ + s.take(i as int).filter_map(f),
        {
            let ghost done = s.take(i as int).filter_map(f);
            proof {
                lemma_filter_map_step(s, f, i as int);
            }
            if let Some(b) = self.opened_buffers.value_of(i).upgrade(cx) {
                let ghost e = Effect::RemovePeer { buffer: b.entity_id, replica_id };
                out.push(Effect::RemovePeer { buffer: b.entity_id, replica_id });
                assert(out@ =~= old(out)@ + done.push(e));
            }
        }
        let ghost mid = out@;
        self.shared_buffers.remove(&peer_id);
        out.push(Effect::Emit(Event::CollaboratorLeft(peer_id)));
        out.push(Effect::Notify);
        assert(out@ =~= mid + seq![Effect::Emit(Event::CollaboratorLeft(peer_id)), Effect::Notify]);
        Ok(())
    }

    /// Resumes sharing after the connection was lost.
    pub fn reshared(&mut self, collaborators: &Vec<CollaboratorInfo>, out: &mut Vec<Effect>) -> (r:
        Result<(), ProjectError>)
        ensures
            ({
                let n = collaborators@.len() as int;
                let now = collaborators_of(collaborators@, n);
                let ok = all_have_peer_ids(collaborators@, n);
                &&& r == (if ok {
                    Ok::<(), ProjectError>(())
                } else {
                    Err::<(), ProjectError>(ProjectError::MissingPeerId)
                })
                &&& final(self).shared_buffers@ == Map::<PeerId, SortedSet<u64>>::empty()
                &&& final(self).collaborators@ == (if ok {
                    now
                } else {
                    old(self).collaborators@
                })
                &&& *final(self) == (Project {
                    shared_buffers: final(self).shared_buffers,
                    collaborators: final(self).collaborators,
                    ..*old(self)
                })
                &&& final(out)@ == (if ok {
                    old(out)@ + old(self).collaborators.entries().filter_map(left_event(now))
                        + metadata_changed_effects(old(self).client_state)
                } else {
                    old(out)@
                })
            }),
    {
        self.shared_buffers.clear();
        match self.set_collaborators_from_proto(collaborators, out) {
            Err(e) => Err(e),
            Ok(()) => {
                self.metadata_changed(out);
                Ok(())
            },
        }
    }
}

/// A server is known under the name that the last message with its id gives it, with nothing pending.
pub proof fn servers_are_known_by_their_last_name(
    statuses: Map<LanguageServerId, LanguageServerStatus>,
    servers: Seq<ServerInfo>,
    i: int,
)
    requires
        are_fresh_statuses(statuses, servers, servers.len() as int),
        0 <= i < servers.len(),
        forall|j: int|
            i < j < servers.len() ==> LanguageServerId((#[trigger] servers[j]).id as usize)
                != LanguageServerId(servers[i].id as usize),
    ensures
        ({
            let id = LanguageServerId(servers[i].id as usize);
            &&& statuses.contains_key(id)
            &&& statuses[id].name == servers[i].name
            &&& !statuses[id].has_pending_diagnostic_updates
            &&& statuses[id].pending_work@.dom() == Set::<Seq<char>>::empty()
        }),
{
    let id = LanguageServerId(servers[i].id as usize);
    lemma_last_name(servers, servers.len() as int, i);
    assert(statuses.contains_key(id));
    assert(statuses[id].pending_work@.dom() =~= Set::<Seq<char>>::empty());
}

proof fn lemma_last_name(servers: Seq<ServerInfo>, n: int, i: int)
    requires
        0 <= i < n <= servers.len(),
        forall|j: int|
            i < j < servers.len() ==> LanguageServerId((#[trigger] servers[j]).id as usize)
                != LanguageServerId(servers[i].id as usize),
    ensures
        last_name(servers, n, LanguageServerId(servers[i].id as usize)) == Some(servers[i].name),
    decreases n,
{
    if i < n - 1 {
        lemma_last_name(servers, n - 1, i);
        assert(LanguageServerId(servers[n - 1].id as usize) != LanguageServerId(
            servers[i].id as usize,
        ));
    }
}

proof fn lemma_no_name(servers: Seq<ServerInfo>, n: int, id: LanguageServerId)
    requires
        n <= servers.len(),
        forall|j: int|
            0 <= j < n ==> LanguageServerId((#[trigger] servers[j]).id as usize) != id,
    ensures
        last_name(servers, n, id) is None,
    decreases n,
{
    if n > 0 {
        lemma_no_name(servers, n - 1, id);
        assert(LanguageServerId(servers[n - 1].id as usize) != id);
    }
}

/// No server is known that no message names.
pub proof fn unnamed_servers_are_unknown(
    statuses: Map<LanguageServerId, LanguageServerStatus>,
    servers: Seq<ServerInfo>,
    id: LanguageServerId,
)
    requires
        are_fresh_statuses(statuses, servers, servers.len() as int),
        forall|j: int|
            0 <= j < servers.len() ==> LanguageServerId((#[trigger] servers[j]).id as usize) != id,
    ensures
        !statuses.contains_key(id),
{
    lemma_no_name(servers, servers.len() as int, id);
}

/// A participant is read with its ids; without an id of its connection it cannot be.
pub proof fn participants_are_read_as_described(info: CollaboratorInfo)
    ensures
        info.peer_id is None ==> collaborator_of(info) == Err::<Collaborator, ProjectError>(
            ProjectError::MissingPeerId,
        ),
        info.peer_id is Some ==> {
            let r = collaborator_of(info);
            &&& r is Ok
            &&& r->Ok_0.peer_id == info.peer_id->0
            &&& r->Ok_0.user_id == info.user_id
            &&& info.replica_id <= 0xffff ==> r->Ok_0.replica_id == info.replica_id
        },
{
}

/// The participants are exactly those that are described, each as the last message with its id
/// describes it.
pub proof fn described_participants_are_there(infos: Seq<CollaboratorInfo>, n: int, id: PeerId)
    requires
        0 <= n <= infos.len(),
    ensures
        collaborators_of(infos, n).contains_key(id) <==> exists|i: int|
            0 <= i < n && (#[trigger] infos[i]).peer_id == Some(id),
        collaborators_of(infos, n).contains_key(id) ==> collaborators_of(infos, n)[id].peer_id
            == id && exists|i: int|
            0 <= i < n && (#[trigger] infos[i]).peer_id == Some(id) && infos[i].user_id
                == collaborators_of(infos, n)[id].user_id && (forall|j: int|
                i < j < n ==> (#[trigger] infos[j]).peer_id != Some(id)),
    decreases n,
{
    if n > 0 {
        described_participants_are_there(infos, n - 1, id);
        let head = collaborators_of(infos, n - 1);
        let now = collaborators_of(infos, n);
        if infos[n - 1].peer_id == Some(id) {
            assert(infos[n - 1].peer_id == Some(id));
            assert(now[id].user_id == infos[n - 1].user_id);
        } else if head.contains_key(id) {
            let i = choose|i: int|
                0 <= i < n - 1 && (#[trigger] infos[i]).peer_id == Some(id) && infos[i].user_id
                    == head[id].user_id && (forall|j: int|
                    i < j < n - 1 ==> (#[trigger] infos[j]).peer_id != Some(id));
            assert(infos[i].peer_id == Some(id));
            assert(now[id] == head[id]);
        }
    }
}

/// Observers hear exactly of the participants who are no longer there.
pub proof fn those_who_left_are_announced(
    now: Map<PeerId, Collaborator>,
    e: (PeerId, Collaborator),
)
    ensures
        left_event(now)(e) is Some <==> !now.contains_key(e.0),
        left_event(now)(e) is Some ==> left_event(now)(e)->0 == Effect::Emit(
            Event::CollaboratorLeft(e.0),
        ),
{
}

/// Each worktree that a guest starts with is announced, and drawn.
pub proof fn every_first_worktree_is_announced(n: nat, i: int)
    requires
        0 <= i < n,
    ensures
        added_effects(n).len() == 2 * n,
        added_effects(n)[2 * i] == Effect::Emit(Event::WorktreeAdded),
        added_effects(n)[2 * i + 1] == Effect::Notify,
{
}

/// The host is the participant whose replica is the first one.
pub proof fn hosts_have_the_first_replica(es: Seq<(PeerId, Collaborator)>)
    ensures
        find_map(es, hosting()) is Some ==> find_map(es, hosting())->0.replica_id == 0 && exists|
            i: int,
        |
            0 <= i < es.len() && (#[trigger] es[i]).1 == find_map(es, hosting())->0,
        find_map(es, hosting()) is None ==> forall|i: int|
            0 <= i < es.len() ==> (#[trigger] es[i]).1.replica_id != 0,
{
    crate::seqs::lemma_find_map_exact(es, hosting());
    if find_map(es, hosting()) is Some {
        let i = crate::seqs::lemma_find_map_witness(es, hosting());
        assert(es[i].1 == find_map(es, hosting())->0);
    }
}

/// Only buffers of which nothing but operations has come are forgotten.
pub proof fn arrived_buffers_are_kept(buffers: Map<u64, OpenBuffer>, id: u64)
    ensures
        arrived(buffers).contains_key(id) <==> buffers.contains_key(id) && !(
        buffers[id] is Operations),
        arrived(buffers).contains_key(id) ==> arrived(buffers)[id] == buffers[id],
{
}

/// A participant that goes by another id keeps what it had, and nothing is left under the former id.
/// What belongs to others stays.
pub proof fn participants_keep_what_they_had<V>(
    m: Map<PeerId, V>,
    from: PeerId,
    to: PeerId,
    other: PeerId,
)
    requires
        from != to,
        other != from,
        other != to,
    ensures
        m.contains_key(from) ==> moved(m, from, to).contains_key(to) && moved(m, from, to)[to]
            == m[from],
        !moved(m, from, to).contains_key(from),
        moved(m, from, to).contains_key(other) == m.contains_key(other),
        m.contains_key(other) ==> moved(m, from, to)[other] == m[other],
{
}

/// The selections and edits of a participant who left are removed from every live buffer.
pub proof fn leaving_participants_leave_buffers(
    cx: AppContext,
    replica_id: u16,
    e: (u64, OpenBuffer),
)
    ensures
        remove_peer_effect(cx, replica_id)(e) is Some <==> e.1.live(cx) is Some,
        remove_peer_effect(cx, replica_id)(e) is Some ==> remove_peer_effect(cx, replica_id)(e)->0
            == (Effect::RemovePeer { buffer: e.1.live(cx)->0.entity_id, replica_id }),
{
}

/// A new project has no worktrees, no buffers, no servers and no participants, and numbers its
/// buffers and groups from zero.
pub proof fn new_projects_are_empty(project: Project)
    requires
        is_blank(project),
    ensures
        project.worktrees@.len() == 0,
        project.collaborators.entries().len() == 0,
        project.opened_buffers.entries().len() == 0,
        project.language_servers.entries().len() == 0,
        project.language_server_ids.entries().len() == 0,
        project.shared_buffers.entries().len() == 0,
        project.incomplete_remote_buffers.entries().len() == 0,
        project.buffer_snapshots.entries().len() == 0,
        project.next_buffer_id == 0,
        project.next_diagnostic_group_id == 0,
        project.active_entry is None,
        project.default_prettier is None,
{
}

/// What a participant has been sent is read off entry by entry.
pub proof fn sent_buffers_are_known_by_participant(
    m: SortedMap<PeerId, SortedSet<u64>>,
    peer_id: PeerId,
    buffer_id: u64,
)
    ensures
        shared_map(m).contains_key(peer_id) <==> m@.contains_key(peer_id),
        m@.contains_key(peer_id) ==> (shared_map(m)[peer_id].contains(buffer_id)
            <==> m@[peer_id]@.contains(buffer_id)),
{
}

/// A list of participants is accepted exactly if each of them has an id of its connection.
pub proof fn participants_need_an_id(infos: Seq<CollaboratorInfo>, n: int)
    requires
        n <= infos.len(),
    ensures
        all_have_peer_ids(infos, n) <==> forall|i: int|
            0 <= i < n ==> collaborator_of(#[trigger] infos[i]) is Ok,
{
    if forall|i: int| 0 <= i < n ==> collaborator_of(#[trigger] infos[i]) is Ok {
        assert forall|i: int| 0 <= i < n implies (#[trigger] infos[i]).peer_id is Some by {
            assert(collaborator_of(infos[i]) is Ok);
        }
    }
}

} // verus!
