//! How a project is shared with other participants.

use crate::effects::{Effect, Event, LocalProjectUpdate, Message};
use crate::ids::{EntityId, LanguageServerId, PeerId, WorktreeId};
use crate::map::{lemma_mapped, sorted, SortedSet};
use crate::model::AppContext;
use crate::path::Path;
use crate::project::{
    Collaborator, LanguageServerStatus, OpenBuffer, Project, ProjectClientState, ProjectError,
    WorktreeHandle,
};
use crate::seqs::{lemma_filter_map_has, lemma_filter_map_step, lemma_take_all};
use std::sync::Arc;
use vstd::prelude::*;

verus! {

/// A buffer that is alive is held on to.
pub open spec fn held(cx: AppContext) -> spec_fn(OpenBuffer) -> OpenBuffer {
    |b: OpenBuffer|
        match b {
            OpenBuffer::Weak(id) => if cx.live_buffer(id) is Some {
                OpenBuffer::Strong(id)
            } else {
                b
            },
            _ => b,
        }
}

/// A buffer is let go.
pub open spec fn let_go() -> spec_fn(OpenBuffer) -> OpenBuffer {
    |b: OpenBuffer|
        match b {
            OpenBuffer::Strong(id) => OpenBuffer::Weak(id),
            _ => b,
        }
}

/// A worktree that is alive is held on to.
pub open spec fn held_worktree(cx: AppContext) -> spec_fn(WorktreeHandle) -> WorktreeHandle {
    |h: WorktreeHandle|
        match h {
            WorktreeHandle::Weak(id) => if cx.live_worktree(id) is Some {
                WorktreeHandle::Strong(id)
            } else {
                h
            },
            WorktreeHandle::Strong(_) => h,
        }
}

/// A worktree that the user cannot see is let go.
pub open spec fn let_go_worktree(cx: AppContext) -> spec_fn(WorktreeHandle) -> WorktreeHandle {
    |h: WorktreeHandle|
        match h {
            WorktreeHandle::Strong(id) => match cx.live_worktree(id) {
                Some(w) => if w.is_visible {
                    h
                } else {
                    WorktreeHandle::Weak(id)
                },
                None => h,
            },
            WorktreeHandle::Weak(_) => h,
        }
}

pub open spec fn unshare_effect() -> spec_fn(WorktreeHandle) -> Option<Effect> {
    |h: WorktreeHandle|
        match h {
            WorktreeHandle::Strong(id) => Some(Effect::UnshareWorktree(id)),
            WorktreeHandle::Weak(_) => None,
        }
}

pub open spec fn disconnect_effect(cx: AppContext) -> spec_fn(WorktreeHandle) -> Option<Effect> {
    |h: WorktreeHandle|
        match h.live(cx) {
            Some(w) => if w.is_local {
                None
            } else {
                Some(Effect::DisconnectWorktree(w.entity_id))
            },
            None => None,
        }
}

pub open spec fn give_up_effect(cx: AppContext) -> spec_fn((u64, OpenBuffer)) -> Option<Effect> {
    |e: (u64, OpenBuffer)|
        match e.1.live(cx) {
            Some(b) => Some(Effect::GiveUpWaiting(b.entity_id)),
            None => None,
        }
}

/// How a guest learns of a server.
pub open spec fn server_message(project_id: u64) -> spec_fn(
    (LanguageServerId, LanguageServerStatus),
) -> Effect {
    |e: (LanguageServerId, LanguageServerStatus)|
        Effect::Send(
            Message::StartLanguageServer { project_id, id: e.0.0 as u64, name: e.1.name },
        )
}

pub open spec fn settings_message(project_id: u64, worktree_id: WorktreeId) -> spec_fn(
    (Path, Arc<String>),
) -> Effect {
    |s: (Path, Arc<String>)|
        Effect::Send(
            Message::UpdateWorktreeSettings {
                project_id,
                worktree_id: worktree_id.0 as u64,
                path: s.0,
                content: Some(s.1),
            },
        )
}

/// How guests learn of the settings of a worktree.
pub open spec fn settings_messages(cx: AppContext, project_id: u64) -> spec_fn(
    WorktreeHandle,
) -> Seq<Effect> {
    |h: WorktreeHandle|
        match h.live(cx) {
            Some(w) => w.local_settings@.map_values(settings_message(project_id, w.id)),
            None => Seq::empty(),
        }
}

impl Project {
    /// Holds on to the live buffers.
    fn hold_buffers(&mut self, cx: &AppContext)
        ensures
            final(self).opened_buffers@ == old(self).opened_buffers@.map_values(held(*cx)),
            *final(self) == (Project { opened_buffers: final(self).opened_buffers, ..*old(self) }),
    {
        let n: usize = self.opened_buffers.len();
        let ghost s = self.opened_buffers.entries();
        for i in 0..n
            invariant
                s == old(self).opened_buffers.entries(),
                sorted(s),
                n == s.len(),
                self.opened_buffers.entries().len() == n,
                forall|j: int|
                    0 <= j < i ==> #[trigger] self.opened_buffers.entries()[j] == (
                        s[j].0,
                        held(*cx)(s[j].1),
                    ),
                forall|j: int| i <= j < n ==> #[trigger] self.opened_buffers.entries()[j] == s[j],
                *self == (Project { opened_buffers: self.opened_buffers, ..*old(self) }),
        {
            assert(self.opened_buffers.entries()[i as int] == s[i as int]);
            let weak: Option<EntityId> = match self.opened_buffers.value_of(i) {
                OpenBuffer::Weak(id) => Some(*id),
                _ => None,
            };
            if let Some(id) = weak {
                if cx.buffer(id).is_some() {
                    self.opened_buffers.set_at(i, OpenBuffer::Strong(id));
                }
            }
        }
        proof {
            lemma_mapped(s, self.opened_buffers.entries(), held(*cx));
        }
    }

    /// Lets the buffers go and wakes those who wait for edits of them.
    fn let_go_buffers(&mut self, cx: &AppContext, out: &mut Vec<Effect>)
        ensures
            final(self).opened_buffers@ == old(self).opened_buffers@.map_values(let_go()),
            *final(self) == (Project { opened_buffers: final(self).opened_buffers, ..*old(self) }),
            final(out)@ == old(out)@ + old(self).opened_buffers.entries().filter_map(
                give_up_effect(*cx),
            ),
    {
        let n: usize = self.opened_buffers.len();
        let ghost s = self.opened_buffers.entries();
        let ghost f = give_up_effect(*cx);
        proof {
            lemma_take_all(s);
            assert(out@ + Seq::<Effect>::empty() =~= out@);
        }
        for i in 0..n
            invariant
                s == old(self).opened_buffers.entries(),
                sorted(s),
                n == s.len(),
                f == give_up_effect(*cx),
                self.opened_buffers.entries().len() == n,
                forall|j: int|
                    0 <= j < i ==> #[trigger] self.opened_buffers.entries()[j] == (
                        s[j].0,
                        let_go()(s[j].1),
                    ),
                forall|j: int| i <= j < n ==> #[trigger] self.opened_buffers.entries()[j] == s[j],
                *self == (Project { opened_buffers: self.opened_buffers, ..*old(self) }),
                out@ == old(out)@ + s.take(i as int).filter_map(f),
        {
            let ghost done = s.take(i as int).filter_map(f);
            proof {
                lemma_filter_map_step(s, f, i as int);
                assert(self.opened_buffers.entries()[i as int] == s[i as int]);
            }
            if let Some(b) = self.opened_buffers.value_of(i).upgrade(cx) {
                out.push(Effect::GiveUpWaiting(b.entity_id));
                assert(out@ =~= old(out)@ + done.push(Effect::GiveUpWaiting(b.entity_id)));
            }
            let strong: Option<EntityId> = match self.opened_buffers.value_of(i) {
                OpenBuffer::Strong(id) => Some(*id),
                _ => None,
            };
            if let Some(id) = strong {
                self.opened_buffers.set_at(i, OpenBuffer::Weak(id));
            }
        }
        proof {
            lemma_mapped(s, self.opened_buffers.entries(), let_go());
        }
    }

    /// Shares the project under an id. `subscribed` tells whether the messages to that id could be
    /// subscribed to.
    pub fn shared(
        &mut self,
        project_id: u64,
        subscribed: bool,
        cx: &AppContext,
        out: &mut Vec<Effect>,
    ) -> (r: Result<(), ProjectError>)
        requires
            old(self).client_state is None && subscribed ==> forall|id: u64| #[trigger]
                old(self).opened_buffers@.contains_key(id) ==> !(old(
                    self,
                ).opened_buffers@[id] is Operations),
        ensures
            r == (if old(self).client_state is Some {
                Err::<(), ProjectError>(ProjectError::AlreadyShared)
            } else if !subscribed {
                Err::<(), ProjectError>(ProjectError::SubscriptionFailed)
            } else {
                Ok::<(), ProjectError>(())
            }),
            r is Err ==> *final(self) == *old(self) && final(out)@ == old(out)@,
            r is Ok ==> {
                &&& final(self).client_state == Some(
                    ProjectClientState::Local { remote_id: project_id },
                )
                &&& final(self).opened_buffers@ == old(self).opened_buffers@.map_values(held(*cx))
                &&& final(self).worktrees@ == old(self).worktrees@.map_values(held_worktree(*cx))
                &&& final(self).client_subscriptions@ == old(self).client_subscriptions@.push(
                    project_id,
                )
                &&& *final(self) == (Project {
                    client_state: final(self).client_state,
                    opened_buffers: final(self).opened_buffers,
                    worktrees: final(self).worktrees,
                    client_subscriptions: final(self).client_subscriptions,
                    ..*old(self)
                })
                &&& final(out)@ == old(out)@ + old(
                    self,
                ).language_server_statuses.entries().map_values(server_message(project_id))
                    + final(self).worktrees@.flat_map(settings_messages(*cx, project_id)) + seq![
                    Effect::QueueUpdate(LocalProjectUpdate::WorktreesChanged),
                    Effect::Notify,
                    Effect::Emit(Event::RemoteIdChanged(Some(project_id))),
                    Effect::Notify,
                ]
            },
    {
        if self.client_state.is_some() {
            return Err(ProjectError::AlreadyShared);
        }
        if !subscribed {
            return Err(ProjectError::SubscriptionFailed);
        }
        self.client_subscriptions.push(project_id);
        self.hold_buffers(cx);
        let ghost ws = self.worktrees@;
        let n: usize = self.worktrees.len();
        for i in 0..n
            invariant
                n == ws.len(),
                self.worktrees@.len() == n,
                forall|j: int|
                    0 <= j < i ==> #[trigger] self.worktrees@[j] == held_worktree(*cx)(ws[j]),
                forall|j: int| i <= j < n ==> #[trigger] self.worktrees@[j] == ws[j],
                *self == (Project {
                    opened_buffers: self.opened_buffers,
                    worktrees: self.worktrees,
                    client_subscriptions: self.client_subscriptions,
                    ..*old(self)
                }),
                self.opened_buffers@ == old(self).opened_buffers@.map_values(held(*cx)),
                self.client_subscriptions@ == old(self).client_subscriptions@.push(project_id),
        {
            assert(self.worktrees@[i as int] == ws[i as int]);
            if let WorktreeHandle::Weak(id) = self.worktrees[i] {
                if cx.worktree(id).is_some() {
                    self.worktrees.set(i, WorktreeHandle::Strong(id));
                }
            }
        }
        assert(self.worktrees@ =~= ws.map_values(held_worktree(*cx)));
        self.push_server_messages(project_id, out);
        self.push_settings_messages(project_id, cx, out);
        let ghost mid = out@;
        self.client_state = Some(ProjectClientState::Local { remote_id: project_id });
        self.metadata_changed(out);
        out.push(Effect::Emit(Event::RemoteIdChanged(Some(project_id))));
        out.push(Effect::Notify);
        assert(out@ =~= mid + seq![
            Effect::QueueUpdate(LocalProjectUpdate::WorktreesChanged),
            Effect::Notify,
            Effect::Emit(Event::RemoteIdChanged(Some(project_id))),
            Effect::Notify,
        ]);
        Ok(())
    }

    fn push_server_messages(&self, project_id: u64, out: &mut Vec<Effect>)
        ensures
            final(out)@ == old(out)@ + self.language_server_statuses.entries().map_values(
                server_message(project_id),
            ),
    {
        let n: usize = self.language_server_statuses.len();
        let ghost all = self.language_server_statuses.entries().map_values(
            server_message(project_id),
        );
        assert(out@ + all.take(0) =~= out@);
        for i in 0..n
            invariant
                n == self.language_server_statuses.entries().len(),
                all == self.language_server_statuses.entries().map_values(
                    server_message(project_id),
                ),
                out@ == old(out)@ + all.take(i as int),
        {
            let id = self.language_server_statuses.key_of(i);
            let status = self.language_server_statuses.value_of(i);
            out.push(
                Effect::Send(
                    Message::StartLanguageServer {
                        project_id,
                        id: id.0 as u64,
                        name: status.name.clone(),
                    },
                ),
            );
            assert(out@ =~= old(out)@ + all.take(i + 1));
        }
        assert(all.take(all.len() as int) =~= all);
    }

    fn push_settings_messages(&self, project_id: u64, cx: &AppContext, out: &mut Vec<Effect>)
        ensures
            final(out)@ == old(out)@ + self.worktrees@.flat_map(
                settings_messages(*cx, project_id),
            ),
    {
        let ghost f = settings_messages(*cx, project_id);
        proof {
            lemma_take_all(self.worktrees@);
            reveal(Seq::flatten);
            assert(self.worktrees@.take(0).map_values(f) =~= Seq::empty());
            assert(out@ + self.worktrees@.take(0).flat_map(f) =~= out@);
        }
        for i in 0..self.worktrees.len()
            invariant
                f == settings_messages(*cx, project_id),
                out@ == old(out)@ + self.worktrees@.take(i as int).flat_map(f),
        {
            let ghost before = out@;
            let ghost done = self.worktrees@.take(i as int).flat_map(f);
            proof {
                self.worktrees@.lemma_flat_map_take_append(f, i as int);
            }
            if let Some(w) = self.worktrees[i].upgrade(cx) {
                let ghost all = w.local_settings@.map_values(settings_message(project_id, w.id));
                assert(before + all.take(0) =~= before);
                for k in 0..w.local_settings.len()
                    invariant
                        all == w.local_settings@.map_values(settings_message(project_id, w.id)),
                        out@ == before + all.take(k as int),
                {
                    let s = &w.local_settings[k];
                    out.push(
                        Effect::Send(
                            Message::UpdateWorktreeSettings {
                                project_id,
                                worktree_id: w.id.to_proto(),
                                path: s.0.clone(),
                                content: Some(s.1.clone()),
                            },
                        ),
                    );
                    assert(out@ =~= before + all.take(k + 1));
                }
                assert(all.take(all.len() as int) =~= all);
                assert(out@ =~= old(out)@ + (done + all));
            } else {
                assert(done + f(self.worktrees@[i as int]) =~= done);
            }
        }
    }
}

/// What is done here when a project is no longer shared.
pub open spec fn letting_go_effects(project: Project, cx: AppContext) -> Seq<Effect> {
    project.worktrees@.filter_map(unshare_effect()) + project.opened_buffers.entries().filter_map(
        give_up_effect(cx),
    )
}

/// What is done when a project is no longer shared: the guests are told last.
pub open spec fn unshare_effects(project: Project, cx: AppContext, remote_id: u64) -> Seq<Effect> {
    letting_go_effects(project, cx).push(
        Effect::Send(Message::UnshareProject { project_id: remote_id }),
    )
}

/// The state of a project that is no longer shared.
pub open spec fn is_unshared(before: Project, after: Project, cx: AppContext) -> bool {
    &&& after.client_state is None
    &&& after.collaborators@ == Map::<PeerId, Collaborator>::empty()
    &&& after.shared_buffers@ == Map::<PeerId, SortedSet<u64>>::empty()
    &&& after.client_subscriptions@ == Seq::<u64>::empty()
    &&& after.worktrees@ == before.worktrees@.map_values(let_go_worktree(cx))
    &&& after.opened_buffers@ == before.opened_buffers@.map_values(let_go())
    &&& after == (Project {
        client_state: after.client_state,
        collaborators: after.collaborators,
        shared_buffers: after.shared_buffers,
        client_subscriptions: after.client_subscriptions,
        worktrees: after.worktrees,
        opened_buffers: after.opened_buffers,
        ..before
    })
}

impl Project {
    fn unshare_internal(
        &mut self,
        connected: bool,
        cx: &AppContext,
        out: &mut Vec<Effect>,
    ) -> (r: Result<(), ProjectError>)
        ensures
            match old(self).client_state {
                Some(ProjectClientState::Remote { .. }) => r == Err::<(), ProjectError>(
                    ProjectError::UnsharingRemoteProject,
                ) && *final(self) == *old(self) && final(out)@ == old(out)@,
                None => r == Err::<(), ProjectError>(ProjectError::UnsharingUnsharedProject)
                    && *final(self) == *old(self) && final(out)@ == old(out)@,
                Some(ProjectClientState::Local { remote_id }) => {
                    &&& is_unshared(*old(self), *final(self), *cx)
                    &&& if connected {
                        &&& r == Ok::<(), ProjectError>(())
                        &&& final(out)@ == old(out)@ + unshare_effects(
                            *old(self),
                            *cx,
                            remote_id,
                        )
                    } else {
                        &&& r == Err::<(), ProjectError>(ProjectError::Disconnected)
                        &&& final(out)@ == old(out)@ + letting_go_effects(*old(self), *cx)
                    }
                },
            },
    {
        let remote_id: u64 = match self.client_state {
            Some(ProjectClientState::Remote { .. }) => {
                return Err(ProjectError::UnsharingRemoteProject);
            },
            None => {
                return Err(ProjectError::UnsharingUnsharedProject);
            },
            Some(ProjectClientState::Local { remote_id }) => remote_id,
        };
        self.client_state = None;
        self.collaborators.clear();
        self.shared_buffers.clear();
        self.client_subscriptions.clear();
        let ghost base = *self;
        let ghost ws = self.worktrees@;
        let ghost f = unshare_effect();
        let n: usize = self.worktrees.len();
        proof {
            lemma_take_all(ws);
            assert(out@ + Seq::<Effect>::empty() =~= out@);
        }
        for i in 0..n
            invariant
                n == ws.len(),
                self.worktrees@.len() == n,
                f == unshare_effect(),
                forall|j: int|
                    0 <= j < i ==> #[trigger] self.worktrees@[j] == let_go_worktree(*cx)(ws[j]),
                forall|j: int| i <= j < n ==> #[trigger] self.worktrees@[j] == ws[j],
                *self == (Project { worktrees: self.worktrees, ..base }),
                out@ == old(out)@ + ws.take(i as int).filter_map(f),
        {
            let ghost done = ws.take(i as int).filter_map(f);
            proof {
                lemma_filter_map_step(ws, f, i as int);
                assert(self.worktrees@[i as int] == ws[i as int]);
            }
            if let WorktreeHandle::Strong(id) = self.worktrees[i] {
                out.push(Effect::UnshareWorktree(id));
                assert(out@ =~= old(out)@ + done.push(Effect::UnshareWorktree(id)));
                if let Some(w) = cx.worktree(id) {
                    if !w.is_visible {
                        self.worktrees.set(i, WorktreeHandle::Weak(id));
                    }
                }
            }
        }
        assert(self.worktrees@ =~= ws.map_values(let_go_worktree(*cx)));
        self.let_go_buffers(cx, out);
        assert(out@ =~= old(out)@ + letting_go_effects(*old(self), *cx));
        if !connected {
            return Err(ProjectError::Disconnected);
        }
        out.push(Effect::Send(Message::UnshareProject { project_id: remote_id }));
        assert(out@ =~= old(out)@ + unshare_effects(*old(self), *cx, remote_id));
        Ok(())
    }

    /// Stops sharing the project. `connected` tells whether messages can be sent: if not, the guests
    /// are not told, and that is an error.
    pub fn unshare(
        &mut self,
        connected: bool,
        cx: &AppContext,
        out: &mut Vec<Effect>,
    ) -> (r: Result<(), ProjectError>)
        ensures
            match old(self).client_state {
                Some(ProjectClientState::Remote { .. }) => r == Err::<(), ProjectError>(
                    ProjectError::UnsharingRemoteProject,
                ) && *final(self) == *old(self) && final(out)@ == old(out)@,
                None => r == Err::<(), ProjectError>(ProjectError::UnsharingUnsharedProject)
                    && *final(self) == *old(self) && final(out)@ == old(out)@,
                Some(ProjectClientState::Local { remote_id }) => {
                    &&& is_unshared(*old(self), *final(self), *cx)
                    &&& if connected {
                        &&& r == Ok::<(), ProjectError>(())
                        &&& final(out)@ == old(out)@ + unshare_effects(*old(self), *cx, remote_id)
                            + seq![Effect::Notify, Effect::Notify]
                    } else {
                        &&& r == Err::<(), ProjectError>(ProjectError::Disconnected)
                        &&& final(out)@ == old(out)@ + letting_go_effects(*old(self), *cx)
                    }
                },
            },
    {
        match self.unshare_internal(connected, cx, out) {
            Err(e) => Err(e),
            Ok(()) => {
                let ghost mid = out@;
                self.metadata_changed(out);
                out.push(Effect::Notify);
                assert(out@ =~= mid + seq![Effect::Notify, Effect::Notify]);
                Ok(())
            },
        }
    }
}

/// What a guest does when the host is gone.
pub open spec fn disconnect_effects(project: Project, cx: AppContext) -> Seq<Effect> {
    project.worktrees@.filter_map(disconnect_effect(cx))
        + project.opened_buffers.entries().filter_map(give_up_effect(cx)) + seq![
        Effect::WakeBufferWaiters,
    ]
}

/// The state of a guest's project once the host is gone.
pub open spec fn is_disconnected(before: Project, after: Project) -> bool {
    match before.client_state {
        Some(ProjectClientState::Remote { remote_id, replica_id, .. }) => {
            &&& after.client_state == Some(
                ProjectClientState::Remote { sharing_has_stopped: true, remote_id, replica_id },
            )
            &&& after.collaborators@ == Map::<PeerId, Collaborator>::empty()
            &&& after.opened_buffers@ == before.opened_buffers@.map_values(let_go())
            &&& after == (Project {
                client_state: after.client_state,
                collaborators: after.collaborators,
                opened_buffers: after.opened_buffers,
                ..before
            })
        },
        _ => after == before,
    }
}

impl Project {
    fn disconnected_from_host_internal(&mut self, cx: &AppContext, out: &mut Vec<Effect>)
        ensures
            is_disconnected(*old(self), *final(self)),
            final(out)@ == (if old(self).is_guest() {
                old(out)@ + disconnect_effects(*old(self), *cx)
            } else {
                old(out)@
            }),
    {
        if let Some(ProjectClientState::Remote { remote_id, replica_id, .. }) = self.client_state {
            self.client_state =
            Some(ProjectClientState::Remote { sharing_has_stopped: true, remote_id, replica_id });
            self.collaborators.clear();
            let ghost f = disconnect_effect(*cx);
            proof {
                lemma_take_all(self.worktrees@);
                assert(out@ + Seq::<Effect>::empty() =~= out@);
            }
            for i in 0..self.worktrees.len()
                invariant
                    f == disconnect_effect(*cx),
                    out@ == old(out)@ + self.worktrees@.take(i as int).filter_map(f),
            {
                let ghost done = self.worktrees@.take(i as int).filter_map(f);
                proof {
                    lemma_filter_map_step(self.worktrees@, f, i as int);
                }
                if let Some(w) = self.worktrees[i].upgrade(cx) {
                    if !w.is_local {
                        out.push(Effect::DisconnectWorktree(w.entity_id));
                        assert(out@ =~= old(out)@ + done.push(
                            Effect::DisconnectWorktree(w.entity_id),
                        ));
                    }
                }
            }
            self.let_go_buffers(cx, out);
            out.push(Effect::WakeBufferWaiters);
            assert(out@ =~= old(out)@ + disconnect_effects(*old(self), *cx));
        }
    }

    /// Notes that the connection to the host is lost.
    pub fn disconnected_from_host(&mut self, cx: &AppContext, out: &mut Vec<Effect>)
        ensures
            is_disconnected(*old(self), *final(self)),
            final(out)@ == (if old(self).is_guest() {
                old(out)@ + disconnect_effects(*old(self), *cx)
            } else {
                old(out)@
            }) + seq![Effect::Emit(Event::DisconnectedFromHost), Effect::Notify],
    {
        self.disconnected_from_host_internal(cx, out);
        let ghost mid = out@;
        out.push(Effect::Emit(Event::DisconnectedFromHost));
        out.push(Effect::Notify);
        assert(out@ =~= mid + seq![Effect::Emit(Event::DisconnectedFromHost), Effect::Notify]);
    }

    /// What is done when the project is dropped: a host stops sharing, a guest leaves. Whether the
    /// others can be told does not matter.
    pub fn release(&mut self, cx: &AppContext, out: &mut Vec<Effect>)
        ensures
            match old(self).client_state {
                Some(ProjectClientState::Local { remote_id }) => is_unshared(
                    *old(self),
                    *final(self),
                    *cx,
                ) && final(out)@ == old(out)@ + unshare_effects(*old(self), *cx, remote_id),
                Some(ProjectClientState::Remote { remote_id, .. }) => is_disconnected(
                    *old(self),
                    *final(self),
                ) && final(out)@ == old(out)@.push(
                    Effect::Send(Message::LeaveProject { project_id: remote_id }),
                ) + disconnect_effects(*old(self), *cx),
                None => *final(self) == *old(self) && final(out)@ == old(out)@,
            },
    {
        match self.client_state {
            Some(ProjectClientState::Local { .. }) => {
                let _ = self.unshare_internal(true, cx, out);
            },
            Some(ProjectClientState::Remote { remote_id, .. }) => {
                out.push(Effect::Send(Message::LeaveProject { project_id: remote_id }));
                self.disconnected_from_host_internal(cx, out);
            },
            None => {},
        }
    }

    pub fn close(&self, out: &mut Vec<Effect>)
        ensures
            final(out)@ == old(out)@.push(Effect::Emit(Event::Closed)),
    {
        out.push(Effect::Emit(Event::Closed));
    }

    /// Handles the message that the project is no longer shared.
    pub fn handle_unshare_project(
        &mut self,
        connected: bool,
        cx: &AppContext,
        out: &mut Vec<Effect>,
    ) -> (r: Result<(), ProjectError>)
        ensures
            match old(self).client_state {
                None => r == Err::<(), ProjectError>(ProjectError::UnsharingUnsharedProject)
                    && *final(self) == *old(self) && final(out)@ == old(out)@,
                Some(ProjectClientState::Local { remote_id }) => {
                    &&& is_unshared(*old(self), *final(self), *cx)
                    &&& if connected {
                        &&& r == Ok::<(), ProjectError>(())
                        &&& final(out)@ == old(out)@ + unshare_effects(*old(self), *cx, remote_id)
                            + seq![Effect::Notify, Effect::Notify]
                    } else {
                        &&& r == Err::<(), ProjectError>(ProjectError::Disconnected)
                        &&& final(out)@ == old(out)@ + letting_go_effects(*old(self), *cx)
                    }
                },
                Some(ProjectClientState::Remote { .. }) => r is Ok && is_disconnected(
                    *old(self),
                    *final(self),
                ) && final(out)@ == old(out)@ + disconnect_effects(*old(self), *cx) + seq![
                    Effect::Emit(Event::DisconnectedFromHost),
                    Effect::Notify,
                ],
            },
    {
        if self.is_local() {
            self.unshare(connected, cx, out)
        } else {
            self.disconnected_from_host(cx, out);
            Ok(())
        }
    }
}

/// Once a project is no longer shared, its buffers and worktrees are held as they were before it
/// was shared: buffers are not held, and worktrees are held where the user can see them.
pub proof fn unsharing_undoes_sharing(
    buffers: Map<u64, OpenBuffer>,
    worktrees: Seq<WorktreeHandle>,
    cx: AppContext,
)
    requires
        forall|id: u64| #[trigger] buffers.contains_key(id) ==> buffers[id] is Weak,
        forall|i: int|
            0 <= i < worktrees.len() ==> match (#[trigger] worktrees[i]).live(cx) {
                Some(w) => (worktrees[i] is Strong) == w.is_visible,
                None => true,
            },
    ensures
        buffers.map_values(held(cx)).map_values(let_go()) == buffers,
        worktrees.map_values(held_worktree(cx)).map_values(let_go_worktree(cx)) == worktrees,
{
    assert(buffers.map_values(held(cx)).map_values(let_go()) =~= buffers);
    assert forall|i: int| 0 <= i < worktrees.len() implies worktrees.map_values(
        held_worktree(cx),
    ).map_values(let_go_worktree(cx))[i] == #[trigger] worktrees[i] by {}
    assert(worktrees.map_values(held_worktree(cx)).map_values(let_go_worktree(cx)) =~= worktrees);
}

/// While a project is shared, what is alive is held on to.
pub proof fn sharing_holds_on_to_live_buffers(
    buffers: Map<u64, OpenBuffer>,
    cx: AppContext,
    id: u64,
)
    requires
        buffers.contains_key(id),
        buffers[id].live(cx) is Some,
    ensures
        buffers.map_values(held(cx))[id] is Strong,
        buffers.map_values(held(cx))[id].live(cx) == buffers[id].live(cx),
{
}

/// Holding on to buffers and worktrees, and letting them go, changes what keeps them alive and
/// nothing else: a handle leads to the same buffer or worktree as before. Operations that wait are
/// not touched.
pub proof fn handles_lead_where_they_did(b: OpenBuffer, h: WorktreeHandle, cx: AppContext)
    ensures
        held(cx)(b).live(cx) == b.live(cx),
        let_go()(b).live(cx) == b.live(cx),
        b is Operations ==> held(cx)(b) == b && let_go()(b) == b,
        b is Weak && b.live(cx) is Some ==> held(cx)(b) is Strong,
        b is Strong ==> held(cx)(b) == b,
        !(let_go()(b) is Strong),
        held_worktree(cx)(h).id() == h.id(),
        let_go_worktree(cx)(h).id() == h.id(),
        h.live(cx) is Some ==> held_worktree(cx)(h) is Strong,
        h is Strong && h.live(cx) is Some && h.live(cx)->0.is_visible ==> let_go_worktree(cx)(h)
            is Strong,
        h.live(cx) is Some && !h.live(cx)->0.is_visible ==> let_go_worktree(cx)(h) is Weak,
        h is Weak ==> let_go_worktree(cx)(h) == h,
{
}

/// A host stops sharing each worktree that it holds; a guest is cut off from each worktree of the
/// host; and nobody waits any longer for a live buffer.
pub proof fn handles_are_released(h: WorktreeHandle, e: (u64, OpenBuffer), cx: AppContext)
    ensures
        h is Strong ==> unshare_effect()(h) == Some(Effect::UnshareWorktree(h.id())),
        h is Weak ==> unshare_effect()(h) is None,
        disconnect_effect(cx)(h) is Some <==> h.live(cx) is Some && !h.live(cx)->0.is_local,
        disconnect_effect(cx)(h) is Some ==> disconnect_effect(cx)(h)->0
            == Effect::DisconnectWorktree(h.live(cx)->0.entity_id),
        give_up_effect(cx)(e) is Some <==> e.1.live(cx) is Some,
        give_up_effect(cx)(e) is Some ==> give_up_effect(cx)(e)->0 == Effect::GiveUpWaiting(
            e.1.live(cx)->0.entity_id,
        ),
{
}

/// Guests learn of each server by its id and name, and of each settings file of a live worktree with
/// its content.
pub proof fn guests_learn_what_is_shared(
    cx: AppContext,
    project_id: u64,
    e: (LanguageServerId, LanguageServerStatus),
    h: WorktreeHandle,
)
    ensures
        server_message(project_id)(e) == Effect::Send(
            Message::StartLanguageServer { project_id, id: e.0.0 as u64, name: e.1.name },
        ),
        h.live(cx) is None ==> settings_messages(cx, project_id)(h).len() == 0,
        h.live(cx) is Some ==> {
            let w = h.live(cx)->0;
            let sent = settings_messages(cx, project_id)(h);
            &&& sent.len() == w.local_settings@.len()
            &&& forall|i: int|
                0 <= i < sent.len() ==> #[trigger] sent[i] == Effect::Send(
                    Message::UpdateWorktreeSettings {
                        project_id,
                        worktree_id: w.id.0 as u64,
                        path: w.local_settings@[i].0,
                        content: Some(w.local_settings@[i].1),
                    },
                )
        },
{
}

/// When a host stops sharing, every worktree that it holds is no longer shared, those who wait for
/// edits of a live buffer give up, and the guests are told, last of all.
pub proof fn everything_stops_being_shared(project: Project, cx: AppContext, remote_id: u64)
    ensures
        ({
            let effects = unshare_effects(project, cx, remote_id);
            let hs = project.worktrees@;
            let es = project.opened_buffers.entries();
            &&& effects.last() == Effect::Send(Message::UnshareProject { project_id: remote_id })
            &&& effects.drop_last() == letting_go_effects(project, cx)
            &&& forall|i: int|
                0 <= i < hs.len() && (#[trigger] hs[i]) is Strong ==> letting_go_effects(
                    project,
                    cx,
                ).contains(Effect::UnshareWorktree(hs[i].id()))
            &&& forall|i: int|
                0 <= i < es.len() && (#[trigger] es[i]).1.live(cx) is Some ==> letting_go_effects(
                    project,
                    cx,
                ).contains(Effect::GiveUpWaiting(es[i].1.live(cx)->0.entity_id))
        }),
{
    let hs = project.worktrees@;
    let es = project.opened_buffers.entries();
    let f = unshare_effect();
    let g = give_up_effect(cx);
    let a = hs.filter_map(f);
    let b = es.filter_map(g);
    let all = letting_go_effects(project, cx);
    assert(unshare_effects(project, cx, remote_id).drop_last() =~= all);
    assert forall|i: int| 0 <= i < hs.len() && (#[trigger] hs[i]) is Strong implies all.contains(
        Effect::UnshareWorktree(hs[i].id()),
    ) by {
        lemma_filter_map_has(hs, f, i);
        let e = f(hs[i])->0;
        let k = choose|k: int| 0 <= k < a.len() && a[k] == e;
        assert(all[k] == e);
    }
    assert forall|i: int| 0 <= i < es.len() && (#[trigger] es[i]).1.live(cx) is Some implies
        all.contains(Effect::GiveUpWaiting(es[i].1.live(cx)->0.entity_id)) by {
        lemma_filter_map_has(es, g, i);
        let e = g(es[i])->0;
        let k = choose|k: int| 0 <= k < b.len() && b[k] == e;
        assert(all[a.len() + k] == e);
    }
}

/// A project that is no longer shared has no participants, has sent nobody anything, and keeps its
/// servers, its settings and all its buffers and worktrees.
pub proof fn unshared_projects_have_no_guests(before: Project, after: Project, cx: AppContext)
    requires
        is_unshared(before, after, cx),
    ensures
        after.client_state is None,
        after.collaborators@.dom() == Set::<PeerId>::empty(),
        after.shared_buffers@.dom() == Set::<PeerId>::empty(),
        after.client_subscriptions@.len() == 0,
        after.worktrees@.len() == before.worktrees@.len(),
        forall|i: int|
            0 <= i < after.worktrees@.len() ==> (#[trigger] after.worktrees@[i]).id()
                == before.worktrees@[i].id(),
        after.opened_buffers@.dom() == before.opened_buffers@.dom(),
        forall|id: u64| #[trigger]
            after.opened_buffers@.contains_key(id) ==> !(after.opened_buffers@[id] is Strong),
        after.language_servers == before.language_servers,
        after.language_server_ids == before.language_server_ids,
        after.next_buffer_id == before.next_buffer_id,
{
    assert(after.collaborators@.dom() =~= Set::<PeerId>::empty());
    assert(after.shared_buffers@.dom() =~= Set::<PeerId>::empty());
    assert(after.opened_buffers@.dom() =~= before.opened_buffers@.dom());
}

/// A guest whose host is gone stays a guest under the same ids, knows that sharing has stopped, has no
/// participants any more, and keeps its worktrees and buffers. For others nothing changes.
pub proof fn guests_notice_that_the_host_is_gone(before: Project, after: Project)
    requires
        is_disconnected(before, after),
    ensures
        before.client_state is Some && before.client_state->0 is Remote ==> {
            let state = before.client_state->0;
            &&& after.client_state == Some(
                ProjectClientState::Remote {
                    sharing_has_stopped: true,
                    remote_id: state->Remote_remote_id,
                    replica_id: state->replica_id,
                },
            )
            &&& after.collaborators@.dom() == Set::<PeerId>::empty()
            &&& after.worktrees == before.worktrees
            &&& after.opened_buffers@.dom() == before.opened_buffers@.dom()
            &&& forall|id: u64| #[trigger]
                after.opened_buffers@.contains_key(id) ==> !(after.opened_buffers@[id] is Strong)
        },
        before.client_state is None || before.client_state->0 is Local ==> after == before,
{
    if before.client_state is Some && before.client_state->0 is Remote {
        assert(after.collaborators@.dom() =~= Set::<PeerId>::empty());
        assert(after.opened_buffers@.dom() =~= before.opened_buffers@.dom());
    }
}

/// A guest whose host is gone is cut off from each live worktree of the host, gives up waiting for
/// edits of each live buffer, and wakes those who wait for buffers.
pub proof fn guests_let_everything_go(project: Project, cx: AppContext)
    ensures
        ({
            let effects = disconnect_effects(project, cx);
            let hs = project.worktrees@;
            let es = project.opened_buffers.entries();
            &&& effects.last() == Effect::WakeBufferWaiters
            &&& forall|i: int|
                0 <= i < hs.len() && (#[trigger] hs[i]).live(cx) is Some
                    && !hs[i].live(cx)->0.is_local ==> effects.contains(
                    Effect::DisconnectWorktree(hs[i].live(cx)->0.entity_id),
                )
            &&& forall|i: int|
                0 <= i < es.len() && (#[trigger] es[i]).1.live(cx) is Some ==> effects.contains(
                    Effect::GiveUpWaiting(es[i].1.live(cx)->0.entity_id),
                )
        }),
{
    let hs = project.worktrees@;
    let es = project.opened_buffers.entries();
    let f = disconnect_effect(cx);
    let g = give_up_effect(cx);
    let a = hs.filter_map(f);
    let b = es.filter_map(g);
    let all = disconnect_effects(project, cx);
    assert forall|i: int|
        0 <= i < hs.len() && (#[trigger] hs[i]).live(cx) is Some && !hs[i].live(
            cx,
        )->0.is_local implies all.contains(
        Effect::DisconnectWorktree(hs[i].live(cx)->0.entity_id),
    ) by {
        lemma_filter_map_has(hs, f, i);
        let e = f(hs[i])->0;
        let k = choose|k: int| 0 <= k < a.len() && a[k] == e;
        assert(all[k] == e);
    }
    assert forall|i: int| 0 <= i < es.len() && (#[trigger] es[i]).1.live(cx) is Some implies
        all.contains(Effect::GiveUpWaiting(es[i].1.live(cx)->0.entity_id)) by {
        lemma_filter_map_has(es, g, i);
        let e = g(es[i])->0;
        let k = choose|k: int| 0 <= k < b.len() && b[k] == e;
        assert(all[a.len() + k] == e);
    }
}

} // verus!
