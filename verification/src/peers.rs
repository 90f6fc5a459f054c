//! What a participant does when the others tell of worktrees and buffers.

use crate::buffers::waiting_effects;
use crate::collab::{
    all_have_peer_ids, are_fresh_statuses, collaborators_of, left_event, shared_map,
    CollaboratorInfo, ServerInfo,
};
use crate::effects::{
    BufferOrderedMessage, BufferPart, Effect, Event, FileInfo, LocalProjectUpdate, Message,
    Operation,
};
use crate::ids::{EntityId, LanguageServerId, PeerId, WorktreeId};
use crate::map::{lemma_entry, lemma_has_entry, SortedMap, SortedSet};
use crate::model::{AppContext, Buffer, Worktree};
use crate::project::{OpenBuffer, Project, ProjectClientState, ProjectError, WorktreeHandle};
use crate::worktrees::{live_id, live_metadata, metadata_changed_effects};
use std::sync::Arc;
use vstd::prelude::*;

verus! {

/// The last of the first `n` worktrees that is alive and has an id.
pub open spec fn last_live(
    worktrees: Seq<WorktreeHandle>,
    cx: AppContext,
    n: int,
    id: WorktreeId,
) -> Option<EntityId>
    decreases n,
{
    if n <= 0 {
        None
    } else {
        match worktrees[n - 1].live(cx) {
            Some(w) => if w.id == id {
                Some(w.entity_id)
            } else {
                last_live(worktrees, cx, n - 1, id)
            },
            None => last_live(worktrees, cx, n - 1, id),
        }
    }
}

/// One of the first `n` ids is `id`.
pub open spec fn named(ids: Seq<u64>, n: int, id: WorktreeId) -> bool {
    exists|j: int| 0 <= j < n && WorktreeId(#[trigger] ids[j] as usize) == id
}

/// No live worktree is left for the id at `i`.
pub open spec fn is_missing(
    worktrees: Seq<WorktreeHandle>,
    cx: AppContext,
    ids: Seq<u64>,
    i: int,
) -> bool {
    let id = WorktreeId(ids[i] as usize);
    last_live(worktrees, cx, worktrees.len() as int, id) is None || named(ids, i, id)
}

/// The worktrees in a list where they are in ascending order of their ids.
pub open spec fn ascending(ids: Seq<WorktreeId>) -> bool {
    forall|i: int, j: int| #![trigger ids[i], ids[j]] 0 <= i < j < ids.len() ==> ids[i].0 < ids[j].0
}

/// The handles of the worktrees that a host names: those that are known, and those made for the
/// ids that are not.
pub open spec fn named_worktrees(
    worktrees: Seq<WorktreeHandle>,
    cx: AppContext,
    ids: Seq<u64>,
    created: Seq<Option<Worktree>>,
    n: nat,
) -> Seq<WorktreeHandle> {
    Seq::new(
        n,
        |i: int|
            WorktreeHandle::Strong(
                if is_missing(worktrees, cx, ids, i) {
                    created[i]->0.entity_id
                } else {
                    last_live(worktrees, cx, worktrees.len() as int, WorktreeId(ids[i] as usize))->0
                },
            ),
    )
}

/// What is told of the worktrees that are new among the first `n`.
pub open spec fn new_worktree_effects(
    worktrees: Seq<WorktreeHandle>,
    cx: AppContext,
    ids: Seq<u64>,
    state: Option<ProjectClientState>,
    n: int,
) -> Seq<Effect>
    decreases n,
{
    if n <= 0 {
        Seq::empty()
    } else {
        let done = new_worktree_effects(worktrees, cx, ids, state, n - 1);
        if is_missing(worktrees, cx, ids, n - 1) {
            done.push(Effect::Emit(Event::WorktreeAdded)) + metadata_changed_effects(state)
        } else {
            done
        }
    }
}

pub open spec fn removed_events(removed: Seq<WorktreeId>) -> Seq<Effect> {
    removed.map_values(|id: WorktreeId| Effect::Emit(Event::WorktreeRemoved(id)))
}

/// A list names, in ascending order, the live worktrees that the host does not name.
pub open spec fn lists_removed(
    removed: Seq<WorktreeId>,
    worktrees: Seq<WorktreeHandle>,
    cx: AppContext,
    ids: Seq<u64>,
) -> bool {
    &&& ascending(removed)
    &&& forall|id: WorktreeId| #[trigger]
        removed.contains(id) == (last_live(worktrees, cx, worktrees.len() as int, id) is Some
            && !named(ids, ids.len() as int, id))
}

proof fn lemma_named_step(ids: Seq<u64>, n: int, id: WorktreeId)
    requires
        0 <= n < ids.len(),
    ensures
        named(ids, n + 1, id) == (named(ids, n, id) || WorktreeId(ids[n] as usize) == id),
{
    if named(ids, n + 1, id) {
        let j = choose|j: int| 0 <= j < n + 1 && WorktreeId(#[trigger] ids[j] as usize) == id;
        if j < n {
            assert(named(ids, n, id));
        }
    }
    if WorktreeId(ids[n] as usize) == id {
        assert(WorktreeId(ids[n] as usize) == id);
    }
}

/// The worktrees have become those that the host names, unless the project is not shared.
pub open spec fn worktrees_follow(
    r: Result<(), ProjectError>,
    before: Project,
    after: Project,
    cx: AppContext,
    ids: Seq<u64>,
    created: Seq<Option<Worktree>>,
    told: Seq<Effect>,
    out: Seq<Effect>,
) -> bool {
    match before.remote_id_of() {
        None => r == Err::<(), ProjectError>(ProjectError::ProjectNotShared) && after == before
            && out == told,
        Some(_) => {
            let ws = before.worktrees@;
            let state = before.client_state;
            &&& r is Ok
            &&& after.worktrees@ == named_worktrees(ws, cx, ids, created, ids.len())
            &&& after == (Project { worktrees: after.worktrees, ..before })
            &&& exists|removed: Seq<WorktreeId>| #[trigger]
                lists_removed(removed, ws, cx, ids) && out == told + new_worktree_effects(
                    ws,
                    cx,
                    ids,
                    state,
                    ids.len() as int,
                ) + metadata_changed_effects(state) + removed_events(removed)
        },
    }
}

impl Project {
    /// The live worktrees by their ids.
    fn live_worktrees_by_id(&self, cx: &AppContext) -> (r: SortedMap<WorktreeId, EntityId>)
        ensures
            forall|id: WorktreeId| #[trigger]
                r@.contains_key(id) == (last_live(
                    self.worktrees@,
                    *cx,
                    self.worktrees@.len() as int,
                    id,
                ) is Some),
            forall|id: WorktreeId| #[trigger]
                r@.contains_key(id) ==> r@[id] == last_live(
                    self.worktrees@,
                    *cx,
                    self.worktrees@.len() as int,
                    id,
                )->0,
    {
        let mut r: SortedMap<WorktreeId, EntityId> = SortedMap::new();
        for i in 0..self.worktrees.len()
            invariant
                forall|id: WorktreeId| #[trigger]
                    r@.contains_key(id) == (last_live(self.worktrees@, *cx, i as int, id) is Some),
                forall|id: WorktreeId| #[trigger]
                    r@.contains_key(id) ==> r@[id] == last_live(
                        self.worktrees@,
                        *cx,
                        i as int,
                        id,
                    )->0,
        {
            let ghost before = r@;
            if let Some(w) = self.worktrees[i].upgrade(cx) {
                r.insert(w.id, w.entity_id);
            }
            assert forall|id: WorktreeId| #[trigger]
                r@.contains_key(id) == (last_live(self.worktrees@, *cx, i + 1, id) is Some) && (
                r@.contains_key(id) ==> r@[id] == last_live(
                    self.worktrees@,
                    *cx,
                    i + 1,
                    id,
                )->0) by {
                assert(before.contains_key(id) == (last_live(
                    self.worktrees@,
                    *cx,
                    i as int,
                    id,
                ) is Some));
            }
        }
        r
    }

    /// Tells for each id whether a worktree has to be made for it.
    pub fn missing_worktrees(&self, ids: &Vec<u64>, cx: &AppContext) -> (r: Vec<bool>)
        ensures
            r@.len() == ids@.len(),
            forall|i: int|
                0 <= i < ids@.len() ==> #[trigger] r@[i] == is_missing(
                    self.worktrees@,
                    *cx,
                    ids@,
                    i,
                ),
    {
        let mut known = self.live_worktrees_by_id(cx);
        let ghost n = self.worktrees@.len() as int;
        let mut r: Vec<bool> = Vec::new();
        for i in 0..ids.len()
            invariant
                n == self.worktrees@.len(),
                r@.len() == i,
                forall|k: int|
                    0 <= k < i ==> #[trigger] r@[k] == is_missing(self.worktrees@, *cx, ids@, k),
                forall|id: WorktreeId| #[trigger]
                    known@.contains_key(id) == (last_live(self.worktrees@, *cx, n, id) is Some
                        && !named(ids@, i as int, id)),
        {
            let id = WorktreeId::from_proto(ids[i]);
            proof {
                assert forall|k: WorktreeId| #[trigger]
                    named(ids@, i + 1, k) == (named(ids@, i as int, k) || k == id) by {
                    lemma_named_step(ids@, i as int, k);
                }
            }
            let ghost before = known@;
            let found = known.remove(&id).is_some();
            r.push(!found);
            assert(found == before.contains_key(id));
        }
        r
    }

    /// Replaces the worktrees by those that the host names. For the ids that
    /// [`Project::missing_worktrees`] tells of, `created` holds the worktrees made for them.
    pub fn set_worktrees_from_proto(
        &mut self,
        ids: &Vec<u64>,
        created: &Vec<Option<Worktree>>,
        cx: &AppContext,
        out: &mut Vec<Effect>,
    ) -> (r: Result<(), ProjectError>)
        requires
            created@.len() == ids@.len(),
            forall|i: int|
                0 <= i < ids@.len() && #[trigger] is_missing(old(self).worktrees@, *cx, ids@, i)
                    ==> created@[i] is Some && !created@[i]->0.is_local,
        ensures
            worktrees_follow(
                r,
                *old(self),
                *final(self),
                *cx,
                ids@,
                created@,
                old(out)@,
                final(out)@,
            ),
    {
        if self.remote_id().is_none() {
            return Err(ProjectError::ProjectNotShared);
        }
        let mut known = self.live_worktrees_by_id(cx);
        let ghost ws = self.worktrees@;
        let ghost state = self.client_state;
        let ghost n = ws.len() as int;
        self.worktrees = Vec::new();
        proof {
            assert(out@ + Seq::<Effect>::empty() =~= out@);
            assert(self.worktrees@ =~= named_worktrees(ws, *cx, ids@, created@, 0));
        }
        for i in 0..ids.len()
            invariant
                n == ws.len(),
                ws == old(self).worktrees@,
                state == old(self).client_state,
                created@.len() == ids@.len(),
                forall|k: int|
                    0 <= k < ids@.len() && #[trigger] is_missing(ws, *cx, ids@, k) ==> created@[
                    k] is Some && !created@[k]->0.is_local,
                forall|id: WorktreeId| #[trigger]
                    known@.contains_key(id) == (last_live(ws, *cx, n, id) is Some && !named(
                        ids@,
                        i as int,
                        id,
                    )),
                forall|id: WorktreeId| #[trigger]
                    known@.contains_key(id) ==> known@[id] == last_live(ws, *cx, n, id)->0,
                self.worktrees@ == named_worktrees(ws, *cx, ids@, created@, i as nat),
                *self == (Project { worktrees: self.worktrees, ..*old(self) }),
                out@ == old(out)@ + new_worktree_effects(ws, *cx, ids@, state, i as int),
        {
            let id = WorktreeId::from_proto(ids[i]);
            let ghost done = new_worktree_effects(ws, *cx, ids@, state, i as int);
            let ghost handles = self.worktrees@;
            proof {
                assert forall|k: WorktreeId| #[trigger]
                    named(ids@, i + 1, k) == (named(ids@, i as int, k) || k == id) by {
                    lemma_named_step(ids@, i as int, k);
                }
            }
            match known.remove(&id) {
                Some(w) => {
                    assert(!is_missing(ws, *cx, ids@, i as int));
                    self.worktrees.push(WorktreeHandle::Strong(w));
                },
                None => {
                    assert(is_missing(ws, *cx, ids@, i as int));
                    if let Some(w) = &created[i] {
                        self.add_worktree(w, out);
                        assert(out@ =~= old(out)@ + (done.push(Effect::Emit(Event::WorktreeAdded))
                            + metadata_changed_effects(state)));
                    }
                },
            }
            assert(self.worktrees@ =~= named_worktrees(ws, *cx, ids@, created@, (i + 1) as nat));
        }
        self.metadata_changed(out);
        let ghost mid = out@;
        let m: usize = known.len();
        let ghost e = known.entries();
        let ghost removed = e.map_values(|p: (WorktreeId, EntityId)| p.0);
        proof {
            assert(mid + removed_events(removed.take(0)) =~= mid);
        }
        for i in 0..m
            invariant
                e == known.entries(),
                m == e.len(),
                removed == e.map_values(|p: (WorktreeId, EntityId)| p.0),
                out@ == mid + removed_events(removed.take(i as int)),
        {
            let id = *known.key_of(i);
            out.push(Effect::Emit(Event::WorktreeRemoved(id)));
            assert(out@ =~= mid + removed_events(removed.take(i + 1)));
        }
        proof {
            assert(removed.take(m as int) =~= removed);
            assert(ascending(removed)) by {
                assert forall|a: int, b: int|
                    #![trigger removed[a], removed[b]]
                    0 <= a < b < removed.len() implies removed[a].0 < removed[b].0 by {
                    assert(<WorktreeId as crate::order::Key>::before(e[a].0, e[b].0));
                }
            }
            assert forall|id: WorktreeId| #[trigger]
                removed.contains(id) == (last_live(ws, *cx, n, id) is Some && !named(
                    ids@,
                    ids@.len() as int,
                    id,
                )) by {
                assert(known@.contains_key(id) == (last_live(ws, *cx, n, id) is Some && !named(
                    ids@,
                    ids@.len() as int,
                    id,
                )));
                if removed.contains(id) {
                    let a = choose|a: int| 0 <= a < removed.len() && removed[a] == id;
                    lemma_entry(e, a);
                }
                if known@.contains_key(id) {
                    let a = lemma_has_entry(e, id);
                    assert(removed[a] == id);
                }
            }
            assert(lists_removed(removed, ws, *cx, ids@));
        }
        Ok(())
    }

    /// Handles the message that names the worktrees. One that was sent before the answer to the
    /// request to join is not heeded.
    pub fn handle_update_project(
        &mut self,
        message_id: u32,
        ids: &Vec<u64>,
        created: &Vec<Option<Worktree>>,
        cx: &AppContext,
        out: &mut Vec<Effect>,
    ) -> (r: Result<(), ProjectError>)
        requires
            message_id > old(self).join_project_response_message_id ==> created@.len() == ids@.len()
                && forall|i: int|
                0 <= i < ids@.len() && #[trigger] is_missing(old(self).worktrees@, *cx, ids@, i)
                    ==> created@[i] is Some && !created@[i]->0.is_local,
        ensures
            if message_id > old(self).join_project_response_message_id {
                worktrees_follow(
                    r,
                    *old(self),
                    *final(self),
                    *cx,
                    ids@,
                    created@,
                    old(out)@,
                    final(out)@,
                )
            } else {
                r is Ok && *final(self) == *old(self) && final(out)@ == old(out)@
            },
    {
        if message_id > self.join_project_response_message_id {
            self.set_worktrees_from_proto(ids, created, cx, out)
        } else {
            Ok(())
        }
    }
}

/// What a guest is told when the host has it back.
#[derive(Debug)]
pub struct RejoinedProject {
    pub worktree_ids: Vec<u64>,
    pub collaborators: Vec<CollaboratorInfo>,
    pub language_servers: Vec<ServerInfo>,
}

pub open spec fn clear_settings_effect() -> spec_fn(WorktreeHandle) -> Effect {
    |h: WorktreeHandle| Effect::ClearLocalSettings(h.id())
}

impl Project {
    /// Resumes taking part after the connection was lost.
    pub fn rejoined(
        &mut self,
        message: RejoinedProject,
        created: &Vec<Option<Worktree>>,
        message_id: u32,
        cx: &AppContext,
        out: &mut Vec<Effect>,
    ) -> (r: Result<(), ProjectError>)
        requires
            created@.len() == message.worktree_ids@.len(),
            forall|i: int|
                0 <= i < message.worktree_ids@.len() && #[trigger] is_missing(
                    old(self).worktrees@,
                    *cx,
                    message.worktree_ids@,
                    i,
                ) ==> created@[i] is Some && !created@[i]->0.is_local,
        ensures
            final(self).join_project_response_message_id == message_id,
            ({
                let ws = old(self).worktrees@;
                let ids = message.worktree_ids@;
                let state = old(self).client_state;
                let infos = message.collaborators@;
                let n = infos.len() as int;
                let cleared = old(out)@ + ws.map_values(clear_settings_effect());
                if old(self).remote_id_of() is None {
                    &&& r == Err::<(), ProjectError>(ProjectError::ProjectNotShared)
                    &&& final(out)@ == cleared
                    &&& *final(self) == (Project {
                        join_project_response_message_id: message_id,
                        ..*old(self)
                    })
                } else {
                    &&& final(self).worktrees@ == named_worktrees(
                        ws,
                        *cx,
                        ids,
                        created@,
                        ids.len(),
                    )
                    &&& r == (if all_have_peer_ids(infos, n) {
                        Ok::<(), ProjectError>(())
                    } else {
                        Err::<(), ProjectError>(ProjectError::MissingPeerId)
                    })
                    &&& r is Ok ==> final(self).collaborators@ == collaborators_of(infos, n)
                        && are_fresh_statuses(
                        final(self).language_server_statuses@,
                        message.language_servers@,
                        message.language_servers@.len() as int,
                    )
                    &&& r is Err ==> final(self).collaborators == old(self).collaborators
                        && final(self).language_server_statuses == old(
                        self,
                    ).language_server_statuses
                    &&& *final(self) == (Project {
                        join_project_response_message_id: message_id,
                        worktrees: final(self).worktrees,
                        collaborators: final(self).collaborators,
                        language_server_statuses: final(self).language_server_statuses,
                        ..*old(self)
                    })
                    &&& exists|removed: Seq<WorktreeId>| #[trigger]
                        lists_removed(removed, ws, *cx, ids) && final(out)@ == cleared
                            + new_worktree_effects(ws, *cx, ids, state, ids.len() as int)
                            + metadata_changed_effects(state) + removed_events(removed) + (
                        if r is Ok {
                            old(self).collaborators.entries().filter_map(
                                left_event(collaborators_of(infos, n)),
                            ) + seq![
                                Effect::QueueMessage(BufferOrderedMessage::Resync),
                                Effect::Notify,
                            ]
                        } else {
                            Seq::empty()
                        })
                }
            }),
    {
        let ghost all = self.worktrees@.map_values(clear_settings_effect());
        assert(out@ + all.take(0) =~= out@);
        for i in 0..self.worktrees.len()
            invariant
                all == self.worktrees@.map_values(clear_settings_effect()),
                out@ == old(out)@ + all.take(i as int),
        {
            out.push(Effect::ClearLocalSettings(self.worktrees[i].handle_id()));
            assert(out@ =~= old(out)@ + all.take(i + 1));
        }
        assert(all.take(all.len() as int) =~= all);
        let ghost cleared = out@;
        self.join_project_response_message_id = message_id;
        match self.set_worktrees_from_proto(&message.worktree_ids, created, cx, out) {
            Ok(()) => {},
            Err(e) => return Err(e),
        }
        let ghost ws = old(self).worktrees@;
        let ghost ids = message.worktree_ids@;
        let ghost mid = out@;
        let ghost removed = choose|removed: Seq<WorktreeId>| #[trigger]
            lists_removed(removed, ws, *cx, ids) && mid == cleared + new_worktree_effects(
                ws,
                *cx,
                ids,
                old(self).client_state,
                ids.len() as int,
            ) + metadata_changed_effects(old(self).client_state) + removed_events(removed);
        match self.set_collaborators_from_proto(&message.collaborators, out) {
            Ok(()) => {},
            Err(e) => {
                assert(mid + Seq::<Effect>::empty() =~= mid);
                assert(lists_removed(removed, ws, *cx, ids));
                return Err(e);
            },
        }
        let ghost told = out@;
        self.language_server_statuses = crate::collab::statuses_of(message.language_servers);
        out.push(Effect::QueueMessage(BufferOrderedMessage::Resync));
        out.push(Effect::Notify);
        proof {
            let now = collaborators_of(
                message.collaborators@,
                message.collaborators@.len() as int,
            );
            let left = old(self).collaborators.entries().filter_map(left_event(now));
            assert(told == mid + left);
            assert(out@ =~= mid + (left + seq![
                Effect::QueueMessage(BufferOrderedMessage::Resync),
                Effect::Notify,
            ]));
            assert(lists_removed(removed, ws, *cx, ids));
        }
        Ok(())
    }

    /// Sees to it that a participant gets a buffer, where the project is hosted here. What comes
    /// back is the id by which the participant knows the buffer.
    pub fn create_buffer_for_peer(
        &self,
        buffer: &Buffer,
        peer_id: PeerId,
        out: &mut Vec<Effect>,
    ) -> (r: u64)
        ensures
            r == buffer.remote_id,
            final(out)@ == (if self.client_state matches Some(ProjectClientState::Local { .. }) {
                old(out)@.push(
                    Effect::QueueUpdate(
                        LocalProjectUpdate::CreateBufferForPeer {
                            peer_id,
                            buffer_id: buffer.remote_id,
                        },
                    ),
                )
            } else {
                old(out)@
            }),
    {
        let buffer_id: u64 = buffer.remote_id;
        if self.is_shared() {
            out.push(
                Effect::QueueUpdate(LocalProjectUpdate::CreateBufferForPeer { peer_id, buffer_id }),
            );
        }
        buffer_id
    }

    /// Notes that a participant is being sent a buffer. What comes back is the buffer that has to
    /// be sent, unless the participant has it already.
    pub fn begin_creating_buffer_for_peer(&mut self, peer_id: PeerId, buffer_id: u64) -> (r: Option<
        EntityId,
    >)
        requires
            old(self).opened_buffers@.contains_key(buffer_id),
        ensures
            ({
                let shared = shared_map(old(self).shared_buffers);
                let seen = if shared.contains_key(peer_id) {
                    shared[peer_id]
                } else {
                    Set::empty()
                };
                &&& shared_map(final(self).shared_buffers) == shared.insert(
                    peer_id,
                    seen.insert(buffer_id),
                )
                &&& r == (match old(self).opened_buffers@[buffer_id] {
                    OpenBuffer::Strong(id) => if seen.contains(buffer_id) {
                        None
                    } else {
                        Some(id)
                    },
                    _ => None,
                })
            }),
            *final(self) == (Project { shared_buffers: final(self).shared_buffers, ..*old(self) }),
    {
        let mut buffers = match self.shared_buffers.remove(&peer_id) {
            Some(b) => b,
            None => SortedSet::new(),
        };
        let is_new = buffers.insert(buffer_id);
        self.shared_buffers.insert(peer_id, buffers);
        proof {
            let shared = shared_map(old(self).shared_buffers);
            let seen = if shared.contains_key(peer_id) {
                shared[peer_id]
            } else {
                Set::empty()
            };
            assert(shared_map(self.shared_buffers) =~= shared.insert(
                peer_id,
                seen.insert(buffer_id),
            ));
        }
        if !is_new {
            return None;
        }
        match self.opened_buffers.get(&buffer_id) {
            Some(OpenBuffer::Strong(id)) => Some(*id),
            _ => None,
        }
    }

    /// What a host announces when its worktrees have changed, and the worktrees that it shares once
    /// that has been received.
    pub fn announce_worktrees(&self, project_id: u64, cx: &AppContext) -> (r: (
        Message,
        Vec<EntityId>,
    ))
        ensures
            match r.0 {
                Message::UpdateProject { project_id: id, worktrees } => id == project_id
                    && worktrees@ == self.worktrees@.filter_map(live_metadata(*cx)),
                _ => false,
            },
            r.1@ == self.worktrees@.filter_map(live_id(*cx)),
    {
        let worktrees = self.worktrees(cx);
        (
            Message::UpdateProject { project_id, worktrees: self.worktree_metadata_protos(cx) },
            worktrees,
        )
    }
}

pub open spec fn share_effect(project_id: u64) -> spec_fn(EntityId) -> Effect {
    |worktree: EntityId| Effect::ShareWorktree { worktree, project_id }
}

/// Shares the worktrees of an announcement, if it was received.
pub fn share_announced_worktrees(
    worktrees: &Vec<EntityId>,
    project_id: u64,
    received: bool,
    out: &mut Vec<Effect>,
)
    ensures
        final(out)@ == (if received {
            old(out)@ + worktrees@.map_values(share_effect(project_id))
        } else {
            old(out)@
        }),
{
    if received {
        let ghost all = worktrees@.map_values(share_effect(project_id));
        assert(out@ + all.take(0) =~= out@);
        for i in 0..worktrees.len()
            invariant
                all == worktrees@.map_values(share_effect(project_id)),
                out@ == old(out)@ + all.take(i as int),
        {
            out.push(Effect::ShareWorktree { worktree: worktrees[i], project_id });
            assert(out@ =~= old(out)@ + all.take(i + 1));
        }
        assert(all.take(all.len() as int) =~= all);
    }
}

/// The messages by which a participant gets a buffer: its state, and its operations in chunks, of
/// which the last is marked.
pub open spec fn buffer_messages_of(
    project_id: u64,
    peer_id: PeerId,
    buffer: EntityId,
    buffer_id: u64,
    chunks: Seq<Arc<Vec<Operation>>>,
) -> Seq<Message> {
    Seq::new(
        chunks.len() + 1,
        |i: int|
            Message::CreateBufferForPeer {
                project_id,
                peer_id,
                part: if i == 0 {
                    BufferPart::State { buffer }
                } else {
                    BufferPart::Chunk {
                        buffer_id,
                        operations: chunks[i - 1],
                        is_last: i == chunks.len(),
                    }
                },
            },
    )
}

/// The messages by which a participant gets a buffer.
pub fn buffer_messages(
    project_id: u64,
    peer_id: PeerId,
    buffer: EntityId,
    buffer_id: u64,
    chunks: &Vec<Arc<Vec<Operation>>>,
) -> (r: Vec<Message>)
    ensures
        r@ == buffer_messages_of(project_id, peer_id, buffer, buffer_id, chunks@),
{
    let mut r: Vec<Message> = Vec::new();
    let ghost all = buffer_messages_of(project_id, peer_id, buffer, buffer_id, chunks@);
    r.push(
        Message::CreateBufferForPeer { project_id, peer_id, part: BufferPart::State { buffer } },
    );
    assert(r@ =~= all.take(1));
    let n: usize = chunks.len();
    for i in 0..n
        invariant
            n == chunks@.len(),
            all == buffer_messages_of(project_id, peer_id, buffer, buffer_id, chunks@),
            r@ == all.take(i + 1),
    {
        let is_last = i == n - 1;
        r.push(
            Message::CreateBufferForPeer {
                project_id,
                peer_id,
                part: BufferPart::Chunk { buffer_id, operations: chunks[i].clone(), is_last },
            },
        );
        assert(r@ =~= all.take(i + 2));
    }
    assert(r@ =~= all);
    r
}

/// A part of a buffer that comes from the host.
#[allow(inconsistent_fields)]
#[derive(Debug)]
pub enum ReceivedPart {
    /// The state, of which the given buffer was made, and the worktree of its file.
    State { buffer_id: u64, file_worktree: Option<u64>, buffer: EntityId },
    /// Operations on a buffer whose state has come.
    Chunk { buffer_id: u64, operations: Vec<Operation>, is_last: bool },
}

/// Operations on a buffer have been passed on to it, or wait for it where it is not there yet.
pub open spec fn buffer_updated(
    before: Project,
    after: Project,
    buffer_id: u64,
    operations: Vec<Operation>,
    told: Seq<Effect>,
    out: Seq<Effect>,
) -> bool {
    let buffers = before.opened_buffers@;
    let now = after.opened_buffers@;
    &&& if buffers.contains_key(buffer_id) {
        match buffers[buffer_id] {
            OpenBuffer::Strong(id) => now == buffers && out == told.push(
                Effect::ApplyOperations { buffer: id, operations },
            ),
            OpenBuffer::Weak(_) => now == buffers && out == told,
            OpenBuffer::Operations(waiting) => {
                &&& out == told
                &&& now.remove(buffer_id) == buffers.remove(buffer_id)
                &&& now.contains_key(buffer_id)
                &&& match now[buffer_id] {
                    OpenBuffer::Operations(all) => all@ == waiting@ + operations@,
                    _ => false,
                }
            },
        }
    } else {
        now == buffers.insert(buffer_id, OpenBuffer::Operations(operations)) && out == told
    }
    &&& after == (Project { opened_buffers: after.opened_buffers, ..before })
}

/// Operations that come before their buffer lose neither their order nor their place: once the
/// buffer is registered, they are applied to it, the earlier ones first.
pub proof fn early_operations_are_applied_in_order(
    before: Project,
    between: Project,
    after: Project,
    buffer_id: u64,
    buffer: EntityId,
    first: Vec<Operation>,
    second: Vec<Operation>,
    told: Seq<Effect>,
)
    requires
        !before.opened_buffers@.contains_key(buffer_id),
        buffer_updated(before, between, buffer_id, first, told, told),
        buffer_updated(between, after, buffer_id, second, told, told),
    ensures
        ({
            let effects = waiting_effects(after, buffer_id, buffer);
            &&& effects.len() == 1
            &&& effects[0] matches Effect::ApplyOperations { buffer: b, operations } && b == buffer
                && operations@ == first@ + second@
        }),
{
}

/// The buffers that are still incomplete after a part has come.
pub open spec fn known_after(known: Map<u64, Option<EntityId>>, part: ReceivedPart) -> Map<
    u64,
    Option<EntityId>,
> {
    match part {
        ReceivedPart::State { buffer_id, buffer, .. } => known.insert(buffer_id, Some(buffer)),
        ReceivedPart::Chunk { buffer_id, is_last, .. } => if is_last {
            known.remove(buffer_id)
        } else {
            known
        },
    }
}

/// The buffer that a part completes.
pub open spec fn completed_by(known: Map<u64, Option<EntityId>>, part: ReceivedPart) -> Option<
    EntityId,
> {
    match part {
        ReceivedPart::Chunk { buffer_id, is_last: true, .. } => known[buffer_id],
        _ => None,
    }
}

/// What is done with a part that has come.
pub open spec fn applied_by(known: Map<u64, Option<EntityId>>, part: ReceivedPart) -> Seq<Effect> {
    match part {
        ReceivedPart::State { .. } => Seq::empty(),
        ReceivedPart::Chunk { buffer_id, operations, .. } => seq![
            Effect::ApplyOperations { buffer: known[buffer_id]->0, operations },
        ],
    }
}

/// A chunk of the operations of a buffer, of which the last is marked.
pub open spec fn chunk_of(buffer_id: u64, chunks: Seq<Vec<Operation>>, i: int) -> ReceivedPart {
    ReceivedPart::Chunk { buffer_id, operations: chunks[i], is_last: i + 1 == chunks.len() }
}

/// The buffers that are still incomplete after the first `n` chunks of one of them.
pub open spec fn known_after_chunks(
    known: Map<u64, Option<EntityId>>,
    buffer_id: u64,
    chunks: Seq<Vec<Operation>>,
    n: int,
) -> Map<u64, Option<EntityId>>
    decreases n,
{
    if n <= 0 {
        known
    } else {
        known_after(
            known_after_chunks(known, buffer_id, chunks, n - 1),
            chunk_of(buffer_id, chunks, n - 1),
        )
    }
}

/// A buffer that is handed out arrives whole: all its operations are applied to it, chunk by chunk,
/// and it is complete with the last chunk and not before.
pub proof fn buffer_arrives_whole(
    known: Map<u64, Option<EntityId>>,
    buffer_id: u64,
    buffer: EntityId,
    chunks: Seq<Vec<Operation>>,
    n: int,
)
    requires
        known.contains_key(buffer_id),
        known[buffer_id] == Some(buffer),
        0 <= n < chunks.len(),
    ensures
        ({
            let now = known_after_chunks(known, buffer_id, chunks, n);
            let part = chunk_of(buffer_id, chunks, n);
            &&& now == known
            &&& applied_by(now, part) == seq![
                Effect::ApplyOperations { buffer, operations: chunks[n] },
            ]
            &&& completed_by(now, part) == (if n + 1 == chunks.len() {
                Some(buffer)
            } else {
                None
            })
        }),
        known_after_chunks(known, buffer_id, chunks, chunks.len() as int) == known.remove(buffer_id),
{
    lemma_known_until_the_last(known, buffer_id, chunks, n);
    lemma_known_until_the_last(known, buffer_id, chunks, chunks.len() - 1);
}

proof fn lemma_known_until_the_last(
    known: Map<u64, Option<EntityId>>,
    buffer_id: u64,
    chunks: Seq<Vec<Operation>>,
    n: int,
)
    requires
        0 <= n < chunks.len(),
    ensures
        known_after_chunks(known, buffer_id, chunks, n) == known,
    decreases n,
{
    if n > 0 {
        lemma_known_until_the_last(known, buffer_id, chunks, n - 1);
    }
}

impl Project {
    /// Why a part of a buffer is refused: its file lies in no known worktree, or its state has not
    /// come.
    pub open spec fn refusal_of(self, cx: AppContext, part: ReceivedPart) -> Option<ProjectError> {
        match part {
            ReceivedPart::State { file_worktree, .. } => match file_worktree {
                Some(id) if self.worktree_of_id(cx, WorktreeId(id as usize)) is None => Some(
                    ProjectError::NoSuchWorktree,
                ),
                _ => None,
            },
            ReceivedPart::Chunk { buffer_id, .. } => {
                let known = self.incomplete_remote_buffers@;
                if known.contains_key(buffer_id) && known[buffer_id] is Some {
                    None
                } else {
                    Some(ProjectError::NoSuchBuffer(buffer_id))
                }
            },
        }
    }
}

impl Project {
    /// Handles operations that another participant has made on a buffer. Those for a buffer that a
    /// guest does not have yet wait for it.
    pub fn handle_update_buffer(
        &mut self,
        buffer_id: u64,
        operations: Vec<Operation>,
        out: &mut Vec<Effect>,
    )
        requires
            old(self).opened_buffers@.contains_key(buffer_id) || old(self).is_guest(),
        ensures
            buffer_updated(
                *old(self),
                *final(self),
                buffer_id,
                operations,
                old(out)@,
                final(out)@,
            ),
    {
        let ghost buffers = self.opened_buffers@;
        match self.opened_buffers.remove(&buffer_id) {
            Some(OpenBuffer::Strong(id)) => {
                self.opened_buffers.insert(buffer_id, OpenBuffer::Strong(id));
                out.push(Effect::ApplyOperations { buffer: id, operations });
                assert(self.opened_buffers@ =~= buffers);
            },
            Some(OpenBuffer::Weak(id)) => {
                self.opened_buffers.insert(buffer_id, OpenBuffer::Weak(id));
                assert(self.opened_buffers@ =~= buffers);
            },
            Some(OpenBuffer::Operations(mut waiting)) => {
                let mut operations = operations;
                waiting.append(&mut operations);
                self.opened_buffers.insert(buffer_id, OpenBuffer::Operations(waiting));
                assert(self.opened_buffers@.remove(buffer_id) =~= buffers.remove(buffer_id));
            },
            None => {
                self.opened_buffers.insert(buffer_id, OpenBuffer::Operations(operations));
                assert(buffers.remove(buffer_id) =~= buffers);
            },
        }
    }

    /// Handles a part of a buffer that comes from the host. A buffer that was made of its state waits
    /// for its operations; the file of the buffer lies in a worktree that has to be known. What comes
    /// back after the last operations is the buffer, which is to be registered.
    pub fn handle_create_buffer_for_peer(
        &mut self,
        part: Option<ReceivedPart>,
        cx: &AppContext,
        out: &mut Vec<Effect>,
    ) -> (r: Result<Option<EntityId>, ProjectError>)
        ensures
            match part {
                None => {
                    &&& r == Err::<Option<EntityId>, ProjectError>(ProjectError::MissingVariant)
                    &&& *final(self) == *old(self)
                    &&& final(out)@ == old(out)@
                },
                Some(part) => {
                    let known = old(self).incomplete_remote_buffers@;
                    let refused = old(self).refusal_of(*cx, part);
                    &&& r == (match refused {
                        Some(e) => Err::<Option<EntityId>, ProjectError>(e),
                        None => Ok::<Option<EntityId>, ProjectError>(completed_by(known, part)),
                    })
                    &&& final(self).incomplete_remote_buffers@ == (if refused is Some {
                        known
                    } else {
                        known_after(known, part)
                    })
                    &&& final(out)@ == (if refused is Some {
                        old(out)@
                    } else {
                        old(out)@ + applied_by(known, part)
                    })
                },
            },
            *final(self) == (Project {
                incomplete_remote_buffers: final(self).incomplete_remote_buffers,
                ..*old(self)
            }),
    {
        match part {
            None => Err(ProjectError::MissingVariant),
            Some(ReceivedPart::State { buffer_id, file_worktree, buffer }) => {
                if let Some(id) = file_worktree {
                    if self.worktree_for_id(WorktreeId::from_proto(id), cx).is_none() {
                        return Err(ProjectError::NoSuchWorktree);
                    }
                }
                self.incomplete_remote_buffers.insert(buffer_id, Some(buffer));
                assert(out@ + Seq::<Effect>::empty() =~= out@);
                Ok(None)
            },
            Some(ReceivedPart::Chunk { buffer_id, operations, is_last }) => {
                let buffer: EntityId = match self.incomplete_remote_buffers.get(&buffer_id) {
                    Some(Some(b)) => *b,
                    _ => return Err(ProjectError::NoSuchBuffer(buffer_id)),
                };
                out.push(Effect::ApplyOperations { buffer, operations });
                assert(out@ =~= old(out)@ + seq![Effect::ApplyOperations { buffer, operations }]);
                if is_last {
                    self.incomplete_remote_buffers.remove(&buffer_id);
                    Ok(Some(buffer))
                } else {
                    Ok(None)
                }
            },
        }
    }

    /// The buffer that a message of the host speaks of: an open one, or one that is still arriving.
    pub open spec fn buffer_meant(self, cx: AppContext, buffer_id: u64) -> Option<EntityId> {
        match self.buffer_of_id(cx, buffer_id) {
            Some(b) => Some(b.entity_id),
            None => if self.incomplete_remote_buffers@.contains_key(buffer_id) {
                self.incomplete_remote_buffers@[buffer_id]
            } else {
                None
            },
        }
    }

    /// The buffer that a message of the host speaks of, such as that its diff base or its file has
    /// changed, or that it was saved or reloaded.
    pub fn buffer_for_message(&self, buffer_id: u64, cx: &AppContext) -> (r: Option<EntityId>)
        ensures
            r == self.buffer_meant(*cx, buffer_id),
    {
        match self.buffer_for_id(buffer_id, cx) {
            Some(b) => Some(b.entity_id),
            None => match self.incomplete_remote_buffers.get(&buffer_id) {
                Some(b) => *b,
                None => None,
            },
        }
    }

    /// Handles the message that the file of a buffer has changed.
    pub fn handle_update_buffer_file(
        &self,
        buffer_id: u64,
        file: Option<FileInfo>,
        cx: &AppContext,
        out: &mut Vec<Effect>,
    ) -> (r: Result<(), ProjectError>)
        ensures
            match self.buffer_meant(*cx, buffer_id) {
                None => r is Ok && final(out)@ == old(out)@,
                Some(buffer) => match file {
                    None => r == Err::<(), ProjectError>(ProjectError::BufferHasNoFile) && final(
                        out)@ == old(out)@,
                    Some(info) => if self.worktree_of_id(
                        *cx,
                        WorktreeId(info.worktree_id as usize),
                    ) is None {
                        r == Err::<(), ProjectError>(ProjectError::NoSuchWorktree) && final(out)@
                            == old(out)@
                    } else {
                        r is Ok && final(out)@ == old(out)@ + seq![
                            Effect::UpdateBufferFile { buffer, file: info },
                            Effect::DetectLanguage(buffer),
                        ]
                    },
                },
            },
    {
        match self.buffer_for_message(buffer_id, cx) {
            None => Ok(()),
            Some(buffer) => match file {
                None => Err(ProjectError::BufferHasNoFile),
                Some(info) => {
                    if self.worktree_for_id(WorktreeId::from_proto(info.worktree_id), cx).is_none() {
                        return Err(ProjectError::NoSuchWorktree);
                    }
                    let ghost i = info;
                    out.push(Effect::UpdateBufferFile { buffer, file: info });
                    out.push(Effect::DetectLanguage(buffer));
                    assert(out@ =~= old(out)@ + seq![
                        Effect::UpdateBufferFile { buffer, file: i },
                        Effect::DetectLanguage(buffer),
                    ]);
                    Ok(())
                },
            },
        }
    }

    /// Looks for a buffer that the host was asked for. Where it has not come, the project notes
    /// that it is waited for, and `None` tells to look again when buffers have been opened.
    pub fn wait_for_remote_buffer(&mut self, id: u64, cx: &AppContext) -> (r: Result<
        Option<EntityId>,
        ProjectError,
    >)
        ensures
            ({
                let stopped = old(self).client_state matches Some(
                    ProjectClientState::Remote { sharing_has_stopped: true, .. },
                );
                let waiting = old(self).incomplete_remote_buffers@;
                match old(self).buffer_of_id(*cx, id) {
                    Some(b) => r == Ok::<Option<EntityId>, ProjectError>(Some(b.entity_id))
                        && *final(self) == *old(self),
                    None => if stopped {
                        r == Err::<Option<EntityId>, ProjectError>(ProjectError::Disconnected)
                            && *final(self) == *old(self)
                    } else {
                        &&& r == Ok::<Option<EntityId>, ProjectError>(None)
                        &&& final(self).incomplete_remote_buffers@ == (if waiting.contains_key(
                            id,
                        ) {
                            waiting
                        } else {
                            waiting.insert(id, None)
                        })
                    },
                }
            }),
            *final(self) == (Project {
                incomplete_remote_buffers: final(self).incomplete_remote_buffers,
                ..*old(self)
            }),
    {
        if let Some(b) = self.buffer_for_id(id, cx) {
            return Ok(Some(b.entity_id));
        }
        if self.is_read_only() {
            return Err(ProjectError::Disconnected);
        }
        if !self.incomplete_remote_buffers.contains_key(&id) {
            self.incomplete_remote_buffers.insert(id, None);
        }
        Ok(None)
    }

    /// Handles the message that the host has started a server.
    pub fn handle_start_language_server(
        &mut self,
        server: Option<ServerInfo>,
        out: &mut Vec<Effect>,
    ) -> (r: Result<(), ProjectError>)
        ensures
            match server {
                None => r == Err::<(), ProjectError>(ProjectError::MissingServer) && *final(self)
                    == *old(self) && final(out)@ == old(out)@,
                Some(server) => {
                    let id = LanguageServerId(server.id as usize);
                    let now = final(self).language_server_statuses@;
                    &&& r is Ok
                    &&& now.remove(id) == old(self).language_server_statuses@.remove(id)
                    &&& now.contains_key(id)
                    &&& crate::servers::is_fresh_status(now[id], server.name)
                    &&& final(out)@ == old(out)@.push(Effect::Notify)
                },
            },
            *final(self) == (Project {
                language_server_statuses: final(self).language_server_statuses,
                ..*old(self)
            }),
    {
        let server = match server {
            Some(s) => s,
            None => return Err(ProjectError::MissingServer),
        };
        let id = LanguageServerId(
            #[verifier::truncate]
            (server.id as usize),
        );
        self.language_server_statuses.insert(id, crate::servers::fresh_status(server.name));
        assert(self.language_server_statuses@.remove(id) =~= old(
            self,
        ).language_server_statuses@.remove(id));
        out.push(Effect::Notify);
        Ok(())
    }
}

/// The live worktree with an id is found wherever there is one, and it is the last such.
pub proof fn last_live_worktrees_count(
    worktrees: Seq<WorktreeHandle>,
    cx: AppContext,
    n: int,
    id: WorktreeId,
)
    requires
        0 <= n <= worktrees.len(),
    ensures
        ({
            let found = last_live(worktrees, cx, n, id);
            &&& found is Some ==> exists|i: int|
                0 <= i < n && ((#[trigger] worktrees[i]).live(cx) matches Some(w) && w.id == id
                    && w.entity_id == found->0) && (forall|j: int|
                    i < j < n ==> !((#[trigger] worktrees[j]).live(cx) matches Some(w) && w.id
                        == id))
            &&& found is None ==> forall|i: int|
                0 <= i < n ==> !((#[trigger] worktrees[i]).live(cx) matches Some(w) && w.id == id)
        }),
    decreases n,
{
    if n > 0 {
        last_live_worktrees_count(worktrees, cx, n - 1, id);
        let found = last_live(worktrees, cx, n, id);
        if (worktrees[n - 1].live(cx) matches Some(w) && w.id == id) {
            assert(worktrees[n - 1].live(cx) is Some);
        } else if found is Some {
            let i = choose|i: int|
                0 <= i < n - 1 && ((#[trigger] worktrees[i]).live(cx) matches Some(w) && w.id == id
                    && w.entity_id == found->0) && (forall|j: int|
                    i < j < n - 1 ==> !((#[trigger] worktrees[j]).live(cx) matches Some(w) && w.id
                        == id));
            assert(worktrees[i].live(cx) is Some);
        }
    }
}

/// A worktree is made for an id exactly if no live one has it, or an earlier place of the list has
/// taken that one already.
pub proof fn worktrees_are_made_for_unknown_ids(
    worktrees: Seq<WorktreeHandle>,
    cx: AppContext,
    ids: Seq<u64>,
    i: int,
)
    requires
        0 <= i < ids.len(),
    ensures
        is_missing(worktrees, cx, ids, i) <==> (forall|k: int|
            0 <= k < worktrees.len() ==> !((#[trigger] worktrees[k]).live(cx) matches Some(w) && w.id
                == WorktreeId(ids[i] as usize))) || exists|j: int|
            0 <= j < i && WorktreeId(#[trigger] ids[j] as usize) == WorktreeId(ids[i] as usize),
{
    let id = WorktreeId(ids[i] as usize);
    last_live_worktrees_count(worktrees, cx, worktrees.len() as int, id);
    if last_live(worktrees, cx, worktrees.len() as int, id) is Some {
        let k = choose|k: int|
            0 <= k < worktrees.len() && ((#[trigger] worktrees[k]).live(cx) matches Some(w) && w.id
                == id);
        assert(worktrees[k].live(cx) is Some);
    }
}

/// A guest has exactly the worktrees that the host names, in that order, and holds on to them: the one
/// it knew where it knew one, and a new one where it did not.
pub proof fn guests_have_the_worktrees_of_the_host(
    worktrees: Seq<WorktreeHandle>,
    cx: AppContext,
    ids: Seq<u64>,
    created: Seq<Option<Worktree>>,
    i: int,
)
    requires
        0 <= i < ids.len(),
        created.len() == ids.len(),
    ensures
        ({
            let now = named_worktrees(worktrees, cx, ids, created, ids.len());
            &&& now.len() == ids.len()
            &&& now[i] is Strong
            &&& is_missing(worktrees, cx, ids, i) ==> now[i].id() == created[i]->0.entity_id
            &&& !is_missing(worktrees, cx, ids, i) ==> exists|k: int|
                0 <= k < worktrees.len() && ((#[trigger] worktrees[k]).live(cx) matches Some(w)
                    && w.id == WorktreeId(ids[i] as usize) && w.entity_id == now[i].id())
        }),
{
    let id = WorktreeId(ids[i] as usize);
    last_live_worktrees_count(worktrees, cx, worktrees.len() as int, id);
    if !is_missing(worktrees, cx, ids, i) {
        let now = named_worktrees(worktrees, cx, ids, created, ids.len());
        let found = last_live(worktrees, cx, worktrees.len() as int, id);
        let k = choose|k: int|
            0 <= k < worktrees.len() && ((#[trigger] worktrees[k]).live(cx) matches Some(w) && w.id
                == id && w.entity_id == found->0);
        assert(worktrees[k].live(cx) is Some);
        assert(now[i].id() == found->0);
    }
}

/// Each new worktree is announced, and no other one.
pub proof fn new_worktrees_are_announced(
    worktrees: Seq<WorktreeHandle>,
    cx: AppContext,
    ids: Seq<u64>,
    state: Option<ProjectClientState>,
    n: int,
)
    requires
        0 <= n <= ids.len(),
    ensures
        (exists|i: int| 0 <= i < n && #[trigger] is_missing(worktrees, cx, ids, i))
            <==> new_worktree_effects(worktrees, cx, ids, state, n).contains(
            Effect::Emit(Event::WorktreeAdded),
        ),
        (forall|i: int| 0 <= i < n ==> !#[trigger] is_missing(worktrees, cx, ids, i))
            ==> new_worktree_effects(worktrees, cx, ids, state, n).len() == 0,
    decreases n,
{
    if n > 0 {
        new_worktrees_are_announced(worktrees, cx, ids, state, n - 1);
        let head = new_worktree_effects(worktrees, cx, ids, state, n - 1);
        let all = new_worktree_effects(worktrees, cx, ids, state, n);
        let e = Effect::Emit(Event::WorktreeAdded);
        if is_missing(worktrees, cx, ids, n - 1) {
            assert(all[head.len() as int] == e);
        } else if head.contains(e) {
            let i = choose|i: int| 0 <= i < n - 1 && #[trigger] is_missing(worktrees, cx, ids, i);
            assert(is_missing(worktrees, cx, ids, i));
        }
    }
}

/// Observers hear of each worktree that the host no longer names, once and in the order of the ids,
/// and of no other one.
pub proof fn removed_worktrees_are_announced(
    removed: Seq<WorktreeId>,
    worktrees: Seq<WorktreeHandle>,
    cx: AppContext,
    ids: Seq<u64>,
)
    requires
        lists_removed(removed, worktrees, cx, ids),
    ensures
        removed_events(removed).len() == removed.len(),
        forall|i: int|
            0 <= i < removed.len() ==> #[trigger] removed_events(removed)[i] == Effect::Emit(
                Event::WorktreeRemoved(removed[i]),
            ),
        forall|i: int, j: int|
            #![trigger removed[i], removed[j]]
            0 <= i < j < removed.len() ==> removed[i].0 < removed[j].0,
        forall|k: int|
            0 <= k < worktrees.len() && ((#[trigger] worktrees[k]).live(cx) matches Some(w) && (
            forall|j: int| 0 <= j < ids.len() ==> WorktreeId(#[trigger] ids[j] as usize) != w.id))
                ==> removed.contains(worktrees[k].live(cx)->0.id),
        forall|i: int, j: int|
            0 <= i < removed.len() && 0 <= j < ids.len() ==> WorktreeId(
                #[trigger] ids[j] as usize,
            ) != #[trigger] removed[i],
{
    assert forall|k: int|
        0 <= k < worktrees.len() && ((#[trigger] worktrees[k]).live(cx) matches Some(w) && (forall|
            j: int,
        |
            0 <= j < ids.len() ==> WorktreeId(#[trigger] ids[j] as usize) != w.id)) implies
        removed.contains(worktrees[k].live(cx)->0.id) by {
        let id = worktrees[k].live(cx)->0.id;
        last_live_worktrees_count(worktrees, cx, worktrees.len() as int, id);
        assert(worktrees[k].live(cx) is Some);
        assert(last_live(worktrees, cx, worktrees.len() as int, id) is Some);
    }
    assert forall|i: int, j: int|
        0 <= i < removed.len() && 0 <= j < ids.len() implies WorktreeId(
        #[trigger] ids[j] as usize,
    ) != #[trigger] removed[i] by {
        assert(removed.contains(removed[i]));
    }
}

/// A participant gets the state of a buffer first and then all its operations, chunk by chunk and in
/// order; exactly the last chunk is marked as such.
pub proof fn buffers_are_sent_in_parts(
    project_id: u64,
    peer_id: PeerId,
    buffer: EntityId,
    buffer_id: u64,
    chunks: Seq<Arc<Vec<Operation>>>,
)
    ensures
        ({
            let sent = buffer_messages_of(project_id, peer_id, buffer, buffer_id, chunks);
            &&& sent.len() == chunks.len() + 1
            &&& sent[0] == (Message::CreateBufferForPeer {
                project_id,
                peer_id,
                part: BufferPart::State { buffer },
            })
            &&& forall|i: int|
                0 <= i < chunks.len() ==> sent[i + 1] == (Message::CreateBufferForPeer {
                    project_id,
                    peer_id,
                    part: BufferPart::Chunk {
                        buffer_id,
                        operations: #[trigger] chunks[i],
                        is_last: i == chunks.len() - 1,
                    },
                })
        }),
{
}

/// Operations on a buffer that is held are applied to it at once. Those on a buffer that has not come
/// wait for it, behind those that wait already. Nothing is done for a buffer that nobody holds.
pub proof fn operations_reach_their_buffer(
    before: Project,
    after: Project,
    buffer_id: u64,
    operations: Vec<Operation>,
    told: Seq<Effect>,
    out: Seq<Effect>,
)
    requires
        buffer_updated(before, after, buffer_id, operations, told, out),
    ensures
        ({
            let buffers = before.opened_buffers@;
            let now = after.opened_buffers@;
            let known = buffers.contains_key(buffer_id);
            &&& known && buffers[buffer_id] is Strong ==> out == told.push(
                Effect::ApplyOperations { buffer: buffers[buffer_id]->Strong_0, operations },
            ) && now == buffers
            &&& known && buffers[buffer_id] is Operations ==> now.contains_key(buffer_id) && (
            now[buffer_id] is Operations) && now[buffer_id]->Operations_0@
                == buffers[buffer_id]->Operations_0@ + operations@ && out == told
            &&& !known ==> now.contains_key(buffer_id) && now[buffer_id] is Operations
                && now[buffer_id]->Operations_0@ == operations@ && out == told
            &&& forall|other: u64|
                other != buffer_id ==> #[trigger] now.contains_key(other) == buffers.contains_key(
                    other,
                )
        }),
{
    let buffers = before.opened_buffers@;
    let now = after.opened_buffers@;
    assert forall|other: u64| other != buffer_id implies #[trigger] now.contains_key(other)
        == buffers.contains_key(other) by {
        assert(now.remove(buffer_id).contains_key(other) == now.contains_key(other));
        assert(buffers.remove(buffer_id).contains_key(other) == buffers.contains_key(other));
        assert(now.remove(buffer_id) =~= buffers.remove(buffer_id));
    }
}

/// A part of a buffer is refused only if it is a state whose file lies in an unknown worktree, or a
/// chunk whose state has not come.
pub proof fn fitting_parts_are_accepted(project: Project, cx: AppContext, part: ReceivedPart)
    ensures
        part is State && part->file_worktree is None ==> project.refusal_of(cx, part) is None,
        part is State && part->file_worktree is Some ==> (project.refusal_of(cx, part) is None
            <==> project.worktree_of_id(
            cx,
            WorktreeId(part->file_worktree->0 as usize),
        ) is Some),
        part is State && project.refusal_of(cx, part) is Some ==> project.refusal_of(cx, part)
            == Some(ProjectError::NoSuchWorktree),
        part is Chunk ==> {
            let known = project.incomplete_remote_buffers@;
            let id = part->Chunk_buffer_id;
            &&& project.refusal_of(cx, part) is None <==> known.contains_key(id) && known[id] is Some
            &&& project.refusal_of(cx, part) is Some ==> project.refusal_of(cx, part) == Some(
                ProjectError::NoSuchBuffer(id),
            )
        },
{
}

/// Once its state has come, a buffer is incomplete until its last chunk; other buffers stay as they
/// are.
pub proof fn parts_concern_their_buffer(
    known: Map<u64, Option<EntityId>>,
    part: ReceivedPart,
    other: u64,
)
    ensures
        part is State ==> known_after(known, part).contains_key(part->State_buffer_id)
            && known_after(known, part)[part->State_buffer_id] == Some(part->buffer)
            && completed_by(known, part) is None && applied_by(known, part).len() == 0,
        part is Chunk ==> known_after(known, part).contains_key(part->Chunk_buffer_id) == (
        known.contains_key(part->Chunk_buffer_id) && !part->is_last),
        part is Chunk && !part->is_last ==> completed_by(known, part) is None,
        part is Chunk && part->is_last ==> completed_by(known, part)
            == known[part->Chunk_buffer_id],
        part is State && other != part->State_buffer_id || part is Chunk && other
            != part->Chunk_buffer_id ==> known_after(known, part).contains_key(other)
            == known.contains_key(other),
{
}

/// A message speaks of the open buffer with its id, and else of one that is still arriving.
pub proof fn messages_speak_of_their_buffer(project: Project, cx: AppContext, buffer_id: u64)
    ensures
        project.buffer_of_id(cx, buffer_id) is Some ==> project.buffer_meant(cx, buffer_id) == Some(
            project.buffer_of_id(cx, buffer_id)->0.entity_id,
        ),
        project.buffer_of_id(cx, buffer_id) is None
            && project.incomplete_remote_buffers@.contains_key(buffer_id) ==> project.buffer_meant(
            cx,
            buffer_id,
        ) == project.incomplete_remote_buffers@[buffer_id],
        project.buffer_of_id(cx, buffer_id) is None
            && !project.incomplete_remote_buffers@.contains_key(buffer_id) ==> project.buffer_meant(
            cx,
            buffer_id,
        ) is None,
{
}

/// Each announced worktree is shared under the id of the project, and each worktree of a guest that
/// comes back has its settings cleared.
pub proof fn worktrees_are_shared_one_by_one(
    worktrees: Seq<EntityId>,
    handles: Seq<WorktreeHandle>,
    project_id: u64,
)
    ensures
        worktrees.map_values(share_effect(project_id)).len() == worktrees.len(),
        forall|i: int|
            0 <= i < worktrees.len() ==> #[trigger] worktrees.map_values(share_effect(project_id))[i]
                == (Effect::ShareWorktree { worktree: worktrees[i], project_id }),
        forall|i: int|
            0 <= i < handles.len() ==> #[trigger] handles.map_values(clear_settings_effect())[i]
                == Effect::ClearLocalSettings(handles[i].id()),
{
}

/// Where the project is shared, its worktrees become those that the host names, one for each id, and
/// nothing else of it changes. Where it is not, nothing changes and that is an error.
pub proof fn worktrees_follow_the_host(
    r: Result<(), ProjectError>,
    before: Project,
    after: Project,
    cx: AppContext,
    ids: Seq<u64>,
    created: Seq<Option<Worktree>>,
    told: Seq<Effect>,
    out: Seq<Effect>,
)
    requires
        worktrees_follow(r, before, after, cx, ids, created, told, out),
    ensures
        before.remote_id_of() is None ==> r == Err::<(), ProjectError>(
            ProjectError::ProjectNotShared,
        ) && after == before && out == told,
        before.remote_id_of() is Some ==> {
            &&& r is Ok
            &&& after.worktrees@.len() == ids.len()
            &&& forall|i: int|
                0 <= i < ids.len() ==> (#[trigger] after.worktrees@[i]) is Strong
            &&& forall|i: int|
                0 <= i < ids.len() && is_missing(before.worktrees@, cx, ids, i) ==> (
                #[trigger] after.worktrees@[i]).id() == created[i]->0.entity_id
            &&& after.opened_buffers == before.opened_buffers
            &&& after.collaborators == before.collaborators
            &&& after.client_state == before.client_state
            &&& out.take(told.len() as int) == told
        },
{
    if before.remote_id_of() is Some {
        assert(out.take(told.len() as int) =~= told);
    }
}

} // verus!
