//! How participants of a shared project keep their buffers in step.

use crate::collab::shared_map;
use crate::effects::{BufferOrderedMessage, Effect, FileInfo, Message, Operation, ServerUpdate};
use crate::ids::{EntityId, LanguageServerId, PeerId};
use crate::map::{
    entries_map, key_at, lemma_entry, lemma_has_entry, lemma_key_unique, sorted, SortedMap, SortedSet,
};
use crate::model::{AppContext, Buffer, File};
use crate::project::{OpenBuffer, Project, ProjectClientState, ProjectError, ProjectTransaction};
use crate::seqs::{lemma_filter_map_matches, lemma_filter_map_step, lemma_take_all};
use vstd::prelude::*;

verus! {

/// How many ordered messages are taken from the queue at once, at most.
pub const MAX_BATCH_SIZE: usize = 128;

/// What is to be done with an ordered message that has been taken from the queue.
#[derive(Debug, PartialEq, Eq)]
pub enum SendStep {
    /// Nothing before the next message.
    Next,
    /// Synchronize the buffers with the host.
    Synchronize,
    /// Send the waiting operations, then the update.
    FlushThenSend { language_server_id: LanguageServerId, message: ServerUpdate },
}

/// What a sender of ordered messages stands for.
pub struct SenderView {
    pub waiting: Map<u64, Seq<Operation>>,
    pub needs_resync_with_host: bool,
}

/// Gathers the operations on each buffer until they are sent.
#[derive(Debug)]
pub struct MessageSender {
    pub operations_by_buffer_id: SortedMap<u64, Vec<Operation>>,
    pub needs_resync_with_host: bool,
}

impl View for MessageSender {
    type V = SenderView;

    open spec fn view(&self) -> SenderView {
        SenderView {
            waiting: self.operations_by_buffer_id@.map_values(|ops: Vec<Operation>| ops@),
            needs_resync_with_host: self.needs_resync_with_host,
        }
    }
}

impl SenderView {
    /// The operations that wait for a buffer.
    pub open spec fn operations(self, buffer_id: u64) -> Seq<Operation> {
        if self.waiting.contains_key(buffer_id) {
            self.waiting[buffer_id]
        } else {
            Seq::empty()
        }
    }

    /// While a guest is out of step with the host, no operation waits.
    pub open spec fn in_step(self) -> bool {
        self.needs_resync_with_host ==> self.waiting == Map::<u64, Seq<Operation>>::empty()
    }

    /// What a message makes of the sender.
    pub open spec fn after(self, message: BufferOrderedMessage) -> SenderView {
        match message {
            BufferOrderedMessage::Operation { buffer_id, operation } => {
                if self.needs_resync_with_host {
                    self
                } else {
                    SenderView {
                        waiting: self.waiting.insert(
                            buffer_id,
                            self.operations(buffer_id).push(operation),
                        ),
                        ..self
                    }
                }
            },
            BufferOrderedMessage::Resync => SenderView { waiting: Map::empty(), ..self },
            BufferOrderedMessage::LanguageServerUpdate { .. } => self,
        }
    }
}

pub open spec fn step_for(message: BufferOrderedMessage) -> SendStep {
    match message {
        BufferOrderedMessage::Operation { .. } => SendStep::Next,
        BufferOrderedMessage::Resync => SendStep::Synchronize,
        BufferOrderedMessage::LanguageServerUpdate { language_server_id, message } => {
            SendStep::FlushThenSend { language_server_id, message }
        },
    }
}

impl MessageSender {
    pub fn new() -> (r: Self)
        ensures
            r@.waiting == Map::<u64, Seq<Operation>>::empty(),
            !r@.needs_resync_with_host,
            r@.in_step(),
    {
        let r = MessageSender {
            operations_by_buffer_id: SortedMap::new(),
            needs_resync_with_host: false,
        };
        assert(r@.waiting =~= Map::<u64, Seq<Operation>>::empty());
        r
    }

    /// Takes a message from the queue. Operations are gathered, unless the participant is out of
    /// step with the host; before a resynchronization those that wait are dropped.
    pub fn take(&mut self, message: BufferOrderedMessage) -> (r: SendStep)
        ensures
            final(self)@ == old(self)@.after(message),
            r == step_for(message),
            old(self)@.in_step() ==> final(self)@.in_step(),
    {
        match message {
            BufferOrderedMessage::Operation { buffer_id, operation } => {
                if !self.needs_resync_with_host {
                    let ghost before = self@;
                    let mut operations = match self.operations_by_buffer_id.remove(&buffer_id) {
                        Some(o) => o,
                        None => Vec::new(),
                    };
                    operations.push(operation);
                    self.operations_by_buffer_id.insert(buffer_id, operations);
                    assert(self@.waiting =~= before.after(message).waiting);
                }
                SendStep::Next
            },
            BufferOrderedMessage::Resync => {
                self.operations_by_buffer_id.clear();
                assert(self@.waiting =~= Map::<u64, Seq<Operation>>::empty());
                SendStep::Synchronize
            },
            BufferOrderedMessage::LanguageServerUpdate { language_server_id, message } => {
                SendStep::FlushThenSend { language_server_id, message }
            },
        }
    }

    /// Notes how a resynchronization with the host ended.
    pub fn synchronized(&mut self, succeeded: bool)
        ensures
            final(self)@ == (SenderView {
                needs_resync_with_host: old(self)@.needs_resync_with_host && !succeeded,
                ..old(self)@
            }),
            old(self)@.in_step() ==> final(self)@.in_step(),
    {
        if succeeded {
            self.needs_resync_with_host = false;
        }
    }

    /// Takes out the operations on one buffer, which are to be sent next.
    pub fn next_batch(&mut self) -> (r: Option<(u64, Vec<Operation>)>)
        ensures
            match r {
                Some((id, operations)) => {
                    &&& old(self)@.waiting.contains_key(id)
                    &&& operations@ == old(self)@.waiting[id]
                    &&& final(self)@ == (SenderView {
                        waiting: old(self)@.waiting.remove(id),
                        ..old(self)@
                    })
                },
                None => old(self)@.waiting == Map::<u64, Seq<Operation>>::empty()
                    && *final(self) == *old(self),
            },
            old(self)@.in_step() ==> final(self)@.in_step(),
    {
        let ghost before = self@;
        if self.operations_by_buffer_id.is_empty() {
            assert(before.waiting =~= Map::<u64, Seq<Operation>>::empty());
            return None;
        }
        let n: usize = self.operations_by_buffer_id.len();
        proof {
            crate::map::lemma_entry(self.operations_by_buffer_id.entries(), 0);
        }
        let (id, operations) = self.operations_by_buffer_id.remove_at(0);
        assert(self@.waiting =~= before.waiting.remove(id));
        Some((id, operations))
    }

    /// Notes how the sending of a batch ended. A guest that could not send falls out of step, and
    /// what still waits is dropped.
    pub fn sent(&mut self, succeeded: bool, is_local: bool)
        ensures
            final(self)@ == (if succeeded || is_local {
                old(self)@
            } else {
                SenderView { waiting: Map::empty(), needs_resync_with_host: true }
            }),
            old(self)@.in_step() ==> final(self)@.in_step(),
    {
        if !succeeded && !is_local {
            self.needs_resync_with_host = true;
            self.operations_by_buffer_id.clear();
            assert(self@.waiting =~= Map::<u64, Seq<Operation>>::empty());
        }
    }
}

/// What several messages make of a sender.
pub open spec fn after_all(s: SenderView, messages: Seq<BufferOrderedMessage>) -> SenderView
    decreases messages.len(),
{
    if messages.len() == 0 {
        s
    } else {
        after_all(s, messages.drop_last()).after(messages.last())
    }
}

pub open spec fn operation_on(id: u64) -> spec_fn(BufferOrderedMessage) -> Option<Operation> {
    |m: BufferOrderedMessage|
        match m {
            BufferOrderedMessage::Operation { buffer_id, operation } => if buffer_id == id {
                Some(operation)
            } else {
                None
            },
            _ => None,
        }
}

/// Operations on a buffer are sent in the order in which they were queued, and none is left out:
/// between two resynchronizations exactly the queued operations wait, in their order.
pub proof fn operations_wait_in_order(
    s: SenderView,
    messages: Seq<BufferOrderedMessage>,
    buffer_id: u64,
)
    requires
        !s.needs_resync_with_host,
        forall|i: int|
            0 <= i < messages.len() ==> !(#[trigger] messages[i] is Resync),
    ensures
        after_all(s, messages).operations(buffer_id) == s.operations(buffer_id)
            + messages.filter_map(operation_on(buffer_id)),
        !after_all(s, messages).needs_resync_with_host,
    decreases messages.len(),
{
    let f = operation_on(buffer_id);
    if messages.len() == 0 {
        assert(messages.filter_map(f) =~= Seq::<Operation>::empty());
        assert(s.operations(buffer_id) + Seq::<Operation>::empty() =~= s.operations(buffer_id));
    } else {
        let n = messages.len() - 1;
        let head = messages.drop_last();
        assert forall|i: int| 0 <= i < head.len() implies !(#[trigger] head[i] is Resync) by {
            assert(head[i] == messages[i]);
        }
        operations_wait_in_order(s, head, buffer_id);
        lemma_filter_map_step(messages, f, n);
        assert(messages.take(n) =~= head);
        assert(messages.take(n + 1) =~= messages);
        let m = messages.last();
        assert(!(messages[n] is Resync));
        let mid = after_all(s, head);
        if let Some(operation) = f(m) {
            assert(s.operations(buffer_id) + head.filter_map(f).push(operation) =~= (s.operations(
                buffer_id,
            ) + head.filter_map(f)).push(operation));
        }
    }
}

/// A guest that is out of step with the host gathers nothing until it has synchronized again.
pub proof fn nothing_waits_while_out_of_step(s: SenderView, messages: Seq<BufferOrderedMessage>)
    requires
        s.needs_resync_with_host,
        s.in_step(),
    ensures
        after_all(s, messages) == s,
    decreases messages.len(),
{
    if messages.len() > 0 {
        nothing_waits_while_out_of_step(s, messages.drop_last());
    }
}

impl Project {
    /// The message that carries a batch, where the project is shared.
    pub fn batch_message(&self, buffer_id: u64, operations: Vec<Operation>) -> (r: Option<Message>)
        ensures
            r == (match self.remote_id_of() {
                Some(project_id) => Some(
                    Message::UpdateBuffer { project_id, buffer_id, operations },
                ),
                None => None,
            }),
    {
        match self.remote_id() {
            Some(project_id) => Some(Message::UpdateBuffer { project_id, buffer_id, operations }),
            None => None,
        }
    }

    /// The message that carries what a language server does, where the project is shared.
    pub fn server_update_message(
        &self,
        language_server_id: LanguageServerId,
        update: ServerUpdate,
    ) -> (r: Option<Message>)
        ensures
            r == (match self.remote_id_of() {
                Some(project_id) => Some(
                    Message::UpdateLanguageServer {
                        project_id,
                        language_server_id: language_server_id.0 as u64,
                        update,
                    },
                ),
                None => None,
            }),
    {
        match self.remote_id() {
            Some(project_id) => Some(
                Message::UpdateLanguageServer {
                    project_id,
                    language_server_id: language_server_id.0 as u64,
                    update,
                },
            ),
            None => None,
        }
    }
}

/// The version that a participant has of a buffer.
#[derive(Clone, Copy, Debug, PartialEq, Eq, Structural)]
pub struct BufferVersion {
    pub id: u64,
    pub version: u64,
}

/// What a guest sends to synchronize its buffers: the versions of those that it has. The buffers that
/// it waits for are asked for once it has been answered.
#[derive(Debug)]
pub struct SynchronizeRequest {
    pub project_id: u64,
    pub buffers: Vec<BufferVersion>,
    pub incomplete_buffer_ids: Vec<u64>,
}

pub open spec fn live_version(cx: AppContext) -> spec_fn((u64, OpenBuffer)) -> Option<
    BufferVersion,
> {
    |e: (u64, OpenBuffer)|
        match e.1.live(cx) {
            Some(b) => Some(BufferVersion { id: e.0, version: b.snapshot.version }),
            None => None,
        }
}

pub open spec fn missing_operations(project: Project, cx: AppContext, project_id: u64) -> spec_fn(
    BufferVersion,
) -> Option<Effect> {
    |known: BufferVersion|
        match project.buffer_of_id(cx, known.id) {
            Some(b) => Some(
                Effect::SendMissingOperations {
                    buffer: b.entity_id,
                    project_id,
                    buffer_id: known.id,
                    since: known.version,
                },
            ),
            None => None,
        }
}

pub open spec fn request_effect(project_id: u64) -> spec_fn(u64) -> Effect {
    |id: u64| Effect::RequestBuffer { project_id, buffer_id: id }
}

impl Project {
    /// What a guest asks the host to bring its buffers in step.
    pub fn synchronize_remote_buffers(&self, cx: &AppContext) -> (r: Result<
        SynchronizeRequest,
        ProjectError,
    >)
        ensures
            match self.client_state {
                Some(ProjectClientState::Remote { sharing_has_stopped, remote_id, .. }) => {
                    if sharing_has_stopped {
                        r matches Err(ProjectError::Disconnected)
                    } else {
                        match r {
                            Ok(q) => {
                                &&& q.project_id == remote_id
                                &&& q.buffers@ == self.opened_buffers.entries().filter_map(
                                    live_version(*cx),
                                )
                                &&& q.incomplete_buffer_ids@
                                    == self.incomplete_remote_buffers.entries().map_values(
                                    |e: (u64, Option<EntityId>)| e.0,
                                )
                            },
                            Err(_) => false,
                        }
                    }
                },
                _ => r matches Err(ProjectError::NotAGuest),
            },
    {
        let project_id: u64 = match self.client_state {
            Some(ProjectClientState::Remote { sharing_has_stopped, remote_id, .. }) => {
                if sharing_has_stopped {
                    return Err(ProjectError::Disconnected);
                }
                remote_id
            },
            _ => return Err(ProjectError::NotAGuest),
        };
        let mut buffers: Vec<BufferVersion> = Vec::new();
        let n: usize = self.opened_buffers.len();
        let ghost all = self.opened_buffers.entries();
        proof {
            lemma_take_all(all);
        }
        for i in 0..n
            invariant
                n == all.len(),
                all == self.opened_buffers.entries(),
                buffers@ == all.take(i as int).filter_map(live_version(*cx)),
        {
            proof {
                lemma_filter_map_step(all, live_version(*cx), i as int);
            }
            if let Some(b) = self.opened_buffers.value_of(i).upgrade(cx) {
                buffers.push(
                    BufferVersion {
                        id: *self.opened_buffers.key_of(i),
                        version: b.snapshot.version,
                    },
                );
            }
        }
        let mut incomplete_buffer_ids: Vec<u64> = Vec::new();
        let m: usize = self.incomplete_remote_buffers.len();
        let ghost ids = self.incomplete_remote_buffers.entries().map_values(
            |e: (u64, Option<EntityId>)| e.0,
        );
        assert(ids.take(0) =~= Seq::empty());
        for i in 0..m
            invariant
                m == self.incomplete_remote_buffers.entries().len(),
                ids == self.incomplete_remote_buffers.entries().map_values(
                    |e: (u64, Option<EntityId>)| e.0,
                ),
                incomplete_buffer_ids@ == ids.take(i as int),
        {
            incomplete_buffer_ids.push(*self.incomplete_remote_buffers.key_of(i));
            assert(incomplete_buffer_ids@ =~= ids.take(i + 1));
        }
        assert(ids.take(m as int) =~= ids);
        Ok(SynchronizeRequest { project_id, buffers, incomplete_buffer_ids })
    }

    /// Handles the host's answer: what the host has not seen of a buffer is sent to it, and the
    /// buffers that are still waited for are asked for again.
    pub fn finish_synchronizing(
        &self,
        project_id: u64,
        known: &Vec<BufferVersion>,
        incomplete_buffer_ids: &Vec<u64>,
        cx: &AppContext,
        out: &mut Vec<Effect>,
    )
        ensures
            final(out)@ == old(out)@ + known@.filter_map(
                missing_operations(*self, *cx, project_id),
            ) + incomplete_buffer_ids@.map_values(request_effect(project_id)),
    {
        let ghost f = missing_operations(*self, *cx, project_id);
        proof {
            lemma_take_all(known@);
            assert(out@ + Seq::<Effect>::empty() =~= out@);
        }
        for i in 0..known.len()
            invariant
                f == missing_operations(*self, *cx, project_id),
                out@ == old(out)@ + known@.take(i as int).filter_map(f),
        {
            let ghost done = known@.take(i as int).filter_map(f);
            proof {
                lemma_filter_map_step(known@, f, i as int);
            }
            let buffer_id: u64 = known[i].id;
            let since: u64 = known[i].version;
            if let Some(b) = self.buffer_for_id(buffer_id, cx) {
                let ghost e = Effect::SendMissingOperations {
                    buffer: b.entity_id,
                    project_id,
                    buffer_id,
                    since,
                };
                out.push(
                    Effect::SendMissingOperations {
                        buffer: b.entity_id,
                        project_id,
                        buffer_id,
                        since,
                    },
                );
                assert(out@ =~= old(out)@ + done.push(e));
            }
        }
        let ghost mid = out@;
        let ghost all = incomplete_buffer_ids@.map_values(request_effect(project_id));
        assert(out@ + all.take(0) =~= out@);
        for i in 0..incomplete_buffer_ids.len()
            invariant
                all == incomplete_buffer_ids@.map_values(request_effect(project_id)),
                out@ == mid + all.take(i as int),
        {
            out.push(Effect::RequestBuffer { project_id, buffer_id: incomplete_buffer_ids[i] });
            assert(out@ =~= mid + all.take(i + 1));
        }
        assert(all.take(all.len() as int) =~= all);
    }
}

/// What is told of a file.
pub open spec fn info_of(file: File) -> FileInfo {
    FileInfo {
        worktree_id: file.worktree_id.0 as u64,
        entry_id: file.entry_id.0 as u64,
        path: file.path,
        mtime: file.mtime,
        is_deleted: file.is_deleted,
    }
}

impl File {
    /// What is told of the file.
    pub fn to_proto(&self) -> (r: FileInfo)
        ensures
            r == info_of(*self),
    {
        FileInfo {
            worktree_id: self.worktree_id.to_proto(),
            entry_id: self.entry_id.to_proto(),
            path: self.path.clone(),
            mtime: self.mtime,
            is_deleted: self.is_deleted,
        }
    }
}

/// What a guest is sent of a buffer that it has.
pub open spec fn sync_effects(project_id: u64, b: Buffer, seen: BufferVersion) -> Seq<Effect> {
    let id = seen.id;
    (match b.file {
        Some(file) => seq![
            Effect::Send(
                Message::UpdateBufferFile { project_id, buffer_id: id, file: info_of(file) },
            ),
        ],
        None => Seq::empty(),
    }) + seq![
        Effect::Send(
            Message::UpdateDiffBase { project_id, buffer_id: id, diff_base: b.diff_base },
        ),
        Effect::Send(Message::BufferReloaded { project_id, buffer_id: id, saved: b.saved }),
        Effect::SendMissingOperations {
            buffer: b.entity_id,
            project_id,
            buffer_id: id,
            since: seen.version,
        },
    ]
}

/// What a guest is sent of the first `n` buffers that it names.
pub open spec fn all_sync_effects(
    project: Project,
    cx: AppContext,
    project_id: u64,
    seen: Seq<BufferVersion>,
    n: int,
) -> Seq<Effect>
    decreases n,
{
    if n <= 0 {
        Seq::empty()
    } else {
        let head = all_sync_effects(project, cx, project_id, seen, n - 1);
        match project.buffer_of_id(cx, seen[n - 1].id) {
            Some(b) => head + sync_effects(project_id, b, seen[n - 1]),
            None => head,
        }
    }
}

/// Those of the first `n` buffers that a guest names which the host has.
pub open spec fn known_buffers(
    project: Project,
    cx: AppContext,
    seen: Seq<BufferVersion>,
    n: int,
) -> Seq<BufferVersion>
    decreases n,
{
    if n <= 0 {
        Seq::empty()
    } else {
        let head = known_buffers(project, cx, seen, n - 1);
        match project.buffer_of_id(cx, seen[n - 1].id) {
            Some(b) => head.push(
                BufferVersion { id: seen[n - 1].id, version: b.snapshot.version },
            ),
            None => head,
        }
    }
}

/// The ids of those buffers.
pub open spec fn known_ids(
    project: Project,
    cx: AppContext,
    seen: Seq<BufferVersion>,
    n: int,
) -> Set<u64>
    decreases n,
{
    if n <= 0 {
        Set::empty()
    } else {
        let head = known_ids(project, cx, seen, n - 1);
        if project.buffer_of_id(cx, seen[n - 1].id) is Some {
            head.insert(seen[n - 1].id)
        } else {
            head
        }
    }
}

impl Project {
    /// Handles a guest's request to bring its buffers in step. The answer names the buffers that
    /// the host has, with their versions; these, and no others, count as shared with the
    /// guest from now on.
    pub fn handle_synchronize_buffers(
        &mut self,
        sender: Option<PeerId>,
        project_id: u64,
        seen: &Vec<BufferVersion>,
        cx: &AppContext,
        out: &mut Vec<Effect>,
    ) -> (r: Vec<BufferVersion>)
        ensures
            match sender {
                None => r@ == Seq::<BufferVersion>::empty() && *final(self) == *old(self)
                    && final(out)@ == old(out)@,
                Some(guest) => {
                    let n = seen@.len() as int;
                    &&& r@ == known_buffers(*old(self), *cx, seen@, n)
                    &&& shared_map(final(self).shared_buffers) == shared_map(
                        old(self).shared_buffers,
                    ).insert(guest, known_ids(*old(self), *cx, seen@, n))
                    &&& final(out)@ == old(out)@ + all_sync_effects(
                        *old(self),
                        *cx,
                        project_id,
                        seen@,
                        n,
                    )
                },
            },
            *final(self) == (Project { shared_buffers: final(self).shared_buffers, ..*old(self) }),
    {
        let mut response: Vec<BufferVersion> = Vec::new();
        let guest = match sender {
            Some(p) => p,
            None => return response,
        };
        let ghost project = *self;
        let mut shared: SortedSet<u64> = SortedSet::new();
        assert(out@ + Seq::<Effect>::empty() =~= out@);
        for i in 0..seen.len()
            invariant
                *self == project,
                response@ == known_buffers(project, *cx, seen@, i as int),
                shared@ == known_ids(project, *cx, seen@, i as int),
                out@ == old(out)@ + all_sync_effects(project, *cx, project_id, seen@, i as int),
        {
            let id: u64 = seen[i].id;
            let ghost done = all_sync_effects(project, *cx, project_id, seen@, i as int);
            if let Some(b) = self.buffer_for_id(id, cx) {
                shared.insert(id);
                response.push(BufferVersion { id, version: b.snapshot.version });
                if let Some(file) = &b.file {
                    out.push(
                        Effect::Send(
                            Message::UpdateBufferFile {
                                project_id,
                                buffer_id: id,
                                file: file.to_proto(),
                            },
                        ),
                    );
                }
                let diff_base = match &b.diff_base {
                    Some(d) => Some(d.clone()),
                    None => None,
                };
                out.push(
                    Effect::Send(Message::UpdateDiffBase { project_id, buffer_id: id, diff_base }),
                );
                out.push(
                    Effect::Send(
                        Message::BufferReloaded { project_id, buffer_id: id, saved: b.saved },
                    ),
                );
                out.push(
                    Effect::SendMissingOperations {
                        buffer: b.entity_id,
                        project_id,
                        buffer_id: id,
                        since: seen[i].version,
                    },
                );
                assert(out@ =~= old(out)@ + (done + sync_effects(project_id, *b, seen@[i as int])));
            }
        }
        self.shared_buffers.insert(guest, shared);
        assert(shared_map(self.shared_buffers) =~= shared_map(project.shared_buffers).insert(
            guest,
            known_ids(project, *cx, seen@, seen@.len() as int),
        ));
        response
    }

    /// Finds the buffer that a guest wants to have saved.
    pub fn handle_save_buffer(&self, buffer_id: u64, cx: &AppContext) -> (r: Result<
        (u64, EntityId),
        ProjectError,
    >)
        ensures
            r == (match self.remote_id_of() {
                None => Err::<(u64, EntityId), ProjectError>(ProjectError::ProjectNotShared),
                Some(project_id) => match self.buffer_of_id(*cx, buffer_id) {
                    None => Err::<(u64, EntityId), ProjectError>(
                        ProjectError::NoSuchBuffer(buffer_id),
                    ),
                    Some(b) => Ok::<(u64, EntityId), ProjectError>((project_id, b.entity_id)),
                },
            }),
    {
        match self.remote_id() {
            None => Err(ProjectError::ProjectNotShared),
            Some(project_id) => match self.buffer_for_id(buffer_id, cx) {
                None => Err(ProjectError::NoSuchBuffer(buffer_id)),
                Some(b) => Ok((project_id, b.entity_id)),
            },
        }
    }

    /// Every one of the first `n` buffers is open.
    pub open spec fn all_open(self, cx: AppContext, ids: Seq<u64>, n: int) -> bool {
        forall|i: int| 0 <= i < n ==> self.buffer_of_id(cx, #[trigger] ids[i]) is Some
    }

    /// The buffers that a guest wants to have reloaded or formatted.
    pub fn buffers_named(&self, ids: &Vec<u64>, cx: &AppContext) -> (r: Result<
        SortedSet<EntityId>,
        ProjectError,
    >)
        ensures
            match r {
                Ok(set) => {
                    &&& self.all_open(*cx, ids@, ids@.len() as int)
                    &&& set@ == entities_of(*self, *cx, ids@, ids@.len() as int)
                },
                Err(e) => exists|k: int|
                    0 <= k < ids@.len() && self.all_open(*cx, ids@, k) && self.buffer_of_id(
                        *cx,
                        #[trigger] ids@[k],
                    ) is None && e == ProjectError::NoSuchBuffer(ids@[k]),
            },
    {
        let mut set: SortedSet<EntityId> = SortedSet::new();
        for i in 0..ids.len()
            invariant
                self.all_open(*cx, ids@, i as int),
                set@ == entities_of(*self, *cx, ids@, i as int),
        {
            match self.buffer_for_id(ids[i], cx) {
                Some(b) => {
                    set.insert(b.entity_id);
                },
                None => return Err(ProjectError::NoSuchBuffer(ids[i])),
            }
        }
        Ok(set)
    }
}

/// The buffers that the first `n` ids stand for.
pub open spec fn entities_of(project: Project, cx: AppContext, ids: Seq<u64>, n: int) -> Set<
    EntityId,
>
    decreases n,
{
    if n <= 0 {
        Set::empty()
    } else {
        entities_of(project, cx, ids, n - 1).insert(
            project.buffer_of_id(cx, ids[n - 1])->0.entity_id,
        )
    }
}

/// The transactions of one request, as they are sent.
#[derive(Debug)]
pub struct TransactionMessage {
    pub buffer_ids: Vec<u64>,
    pub transactions: Vec<u64>,
}

pub open spec fn remote_id_of_entry(cx: AppContext) -> spec_fn((EntityId, u64)) -> u64 {
    |e: (EntityId, u64)| cx.live_buffer(e.0)->0.remote_id
}

pub open spec fn create_effect(cx: AppContext, peer_id: PeerId) -> spec_fn((EntityId, u64)) -> Effect {
    |e: (EntityId, u64)|
        Effect::QueueUpdate(
            crate::effects::LocalProjectUpdate::CreateBufferForPeer {
                peer_id,
                buffer_id: cx.live_buffer(e.0)->0.remote_id,
            },
        )
}

/// The buffers of a message with their transactions.
pub open spec fn transaction_pairs(buffer_ids: Seq<u64>, transactions: Seq<u64>) -> Seq<(u64, u64)> {
    Seq::new(
        if buffer_ids.len() <= transactions.len() {
            buffer_ids.len()
        } else {
            transactions.len()
        },
        |i: int| (buffer_ids[i], transactions[i]),
    )
}

impl Project {
    /// The message that carries transactions to a participant, which is sent the buffers first.
    pub fn serialize_project_transaction_for_peer(
        &self,
        transaction: &ProjectTransaction,
        peer_id: PeerId,
        cx: &AppContext,
        out: &mut Vec<Effect>,
    ) -> (r: TransactionMessage)
        requires
            forall|i: int|
                0 <= i < transaction.0.entries().len() ==> cx.live_buffer(
                    (#[trigger] transaction.0.entries()[i]).0,
                ) is Some,
        ensures
            r.buffer_ids@ == transaction.0.entries().map_values(remote_id_of_entry(*cx)),
            r.transactions@ == transaction.0.entries().map_values(|e: (EntityId, u64)| e.1),
            final(out)@ == (if self.client_state matches Some(ProjectClientState::Local { .. }) {
                old(out)@ + transaction.0.entries().map_values(create_effect(*cx, peer_id))
            } else {
                old(out)@
            }),
    {
        let mut buffer_ids: Vec<u64> = Vec::new();
        let mut transactions: Vec<u64> = Vec::new();
        let n: usize = transaction.0.len();
        let ghost es = transaction.0.entries();
        let ghost ids = es.map_values(remote_id_of_entry(*cx));
        let ghost ts = es.map_values(|e: (EntityId, u64)| e.1);
        let ghost effects = es.map_values(create_effect(*cx, peer_id));
        let ghost hosting = self.client_state matches Some(ProjectClientState::Local { .. });
        assert(out@ + effects.take(0) =~= out@);
        assert(ids.take(0) =~= Seq::empty());
        assert(ts.take(0) =~= Seq::empty());
        for i in 0..n
            invariant
                n == es.len(),
                es == transaction.0.entries(),
                ids == es.map_values(remote_id_of_entry(*cx)),
                ts == es.map_values(|e: (EntityId, u64)| e.1),
                effects == es.map_values(create_effect(*cx, peer_id)),
                hosting == (self.client_state matches Some(ProjectClientState::Local { .. })),
                forall|j: int| 0 <= j < es.len() ==> cx.live_buffer((#[trigger] es[j]).0) is Some,
                buffer_ids@ == ids.take(i as int),
                transactions@ == ts.take(i as int),
                out@ == (if hosting {
                    old(out)@ + effects.take(i as int)
                } else {
                    old(out)@
                }),
        {
            let ghost e = es[i as int];
            assert(cx.live_buffer(e.0) is Some);
            if let Some(b) = cx.buffer(*transaction.0.key_of(i)) {
                buffer_ids.push(self.create_buffer_for_peer(b, peer_id, out));
            }
            transactions.push(*transaction.0.value_of(i));
            assert(buffer_ids@ =~= ids.take(i + 1));
            assert(transactions@ =~= ts.take(i + 1));
            proof {
                if hosting {
                    assert(out@ =~= old(out)@ + effects.take(i + 1));
                }
            }
        }
        assert(effects.take(n as int) =~= effects);
        assert(ids.take(n as int) =~= ids);
        assert(ts.take(n as int) =~= ts);
        TransactionMessage { buffer_ids, transactions }
    }
}

impl TransactionMessage {
    /// The buffers that are to be waited for, each with its transaction.
    pub fn pairs(&self) -> (r: Vec<(u64, u64)>)
        ensures
            r@ == transaction_pairs(self.buffer_ids@, self.transactions@),
    {
        let mut r: Vec<(u64, u64)> = Vec::new();
        let n: usize = if self.buffer_ids.len() <= self.transactions.len() {
            self.buffer_ids.len()
        } else {
            self.transactions.len()
        };
        let ghost all = transaction_pairs(self.buffer_ids@, self.transactions@);
        assert(all.take(0) =~= Seq::empty());
        for i in 0..n
            invariant
                n <= self.buffer_ids@.len(),
                n <= self.transactions@.len(),
                n == all.len(),
                all == transaction_pairs(self.buffer_ids@, self.transactions@),
                r@ == all.take(i as int),
        {
            r.push((self.buffer_ids[i], self.transactions[i]));
            assert(r@ =~= all.take(i + 1));
        }
        assert(all.take(n as int) =~= all);
        r
    }
}

/// The transactions that pairs of buffers and transactions make up; where a buffer occurs twice
/// the later transaction counts.
pub open spec fn transaction_of(pairs: Seq<(EntityId, u64)>, n: int) -> Map<EntityId, u64>
    decreases n,
{
    if n <= 0 {
        Map::empty()
    } else {
        transaction_of(pairs, n - 1).insert(pairs[n - 1].0, pairs[n - 1].1)
    }
}

impl ProjectTransaction {
    /// Makes a transaction of the buffers that have been waited for.
    pub fn from_pairs(pairs: &Vec<(EntityId, u64)>) -> (r: Self)
        ensures
            r.0@ == transaction_of(pairs@, pairs@.len() as int),
    {
        let mut map: SortedMap<EntityId, u64> = SortedMap::new();
        for i in 0..pairs.len()
            invariant
                map@ == transaction_of(pairs@, i as int),
        {
            map.insert(pairs[i].0, pairs[i].1);
        }
        ProjectTransaction(map)
    }
}

/// The buffers that were waited for, each with its transaction.
pub open spec fn awaited_pairs(buffers: Seq<EntityId>, pairs: Seq<(u64, u64)>) -> Seq<
    (EntityId, u64),
> {
    Seq::new(pairs.len(), |i: int| (buffers[i], pairs[i].1))
}

/// What is left to be done for a buffer and its transaction.
pub open spec fn await_effect(push_to_history: bool) -> spec_fn((EntityId, u64)) -> Effect {
    |e: (EntityId, u64)|
        Effect::AwaitTransaction { buffer: e.0, transaction: e.1, push_to_history }
}

impl Project {
    /// Reads the transactions of a message, whose buffers have been waited for in the order in
    /// which the message names them.
    pub fn deserialize_project_transaction(
        &self,
        message: &TransactionMessage,
        buffers: &Vec<EntityId>,
        push_to_history: bool,
        out: &mut Vec<Effect>,
    ) -> (r: ProjectTransaction)
        requires
            buffers@.len() == transaction_pairs(message.buffer_ids@, message.transactions@).len(),
        ensures
            ({
                let pairs = awaited_pairs(
                    buffers@,
                    transaction_pairs(message.buffer_ids@, message.transactions@),
                );
                r.0@ == transaction_of(pairs, pairs.len() as int)
            }),
            final(out)@ == old(out)@ + r.0.entries().map_values(await_effect(push_to_history)),
    {
        let named = message.pairs();
        let mut pairs: Vec<(EntityId, u64)> = Vec::new();
        let ghost all = awaited_pairs(buffers@, named@);
        assert(all.take(0) =~= Seq::empty());
        for i in 0..named.len()
            invariant
                named@.len() == buffers@.len(),
                all == awaited_pairs(buffers@, named@),
                pairs@ == all.take(i as int),
        {
            pairs.push((buffers[i], named[i].1));
            assert(pairs@ =~= all.take(i + 1));
        }
        assert(all.take(named@.len() as int) =~= all);
        let transaction = ProjectTransaction::from_pairs(&pairs);
        let n: usize = transaction.0.len();
        let ghost es = transaction.0.entries();
        let ghost effects = es.map_values(await_effect(push_to_history));
        assert(out@ + effects.take(0) =~= out@);
        for i in 0..n
            invariant
                n == es.len(),
                es == transaction.0.entries(),
                effects == es.map_values(await_effect(push_to_history)),
                out@ == old(out)@ + effects.take(i as int),
        {
            out.push(
                Effect::AwaitTransaction {
                    buffer: *transaction.0.key_of(i),
                    transaction: *transaction.0.value_of(i),
                    push_to_history,
                },
            );
            assert(out@ =~= old(out)@ + effects.take(i + 1));
        }
        assert(effects.take(n as int) =~= effects);
        transaction
    }
}

/// A transaction survives the way to another participant: what is read is each buffer by its id,
/// with the transaction that it had.
pub proof fn transaction_survives_the_wire(es: Seq<(EntityId, u64)>, cx: AppContext, i: int)
    requires
        0 <= i < es.len(),
    ensures
        ({
            let read = transaction_pairs(
                es.map_values(remote_id_of_entry(cx)),
                es.map_values(|e: (EntityId, u64)| e.1),
            );
            read.len() == es.len() && read[i] == (cx.live_buffer(es[i].0)->0.remote_id, es[i].1)
        }),
{
}

/// The first `n` of entries in order make up the map of these entries.
proof fn lemma_transaction_of(es: Seq<(EntityId, u64)>, n: int)
    requires
        sorted(es),
        0 <= n <= es.len(),
    ensures
        forall|k: EntityId| #[trigger]
            transaction_of(es, n).contains_key(k) <==> exists|i: int|
                0 <= i < n && (#[trigger] es[i]).0 == k,
        forall|i: int| 0 <= i < n ==> transaction_of(es, n)[(#[trigger] es[i]).0] == es[i].1,
    decreases n,
{
    if n > 0 {
        lemma_transaction_of(es, n - 1);
        assert forall|k: EntityId| #[trigger]
            transaction_of(es, n).contains_key(k) <==> exists|i: int|
                0 <= i < n && (#[trigger] es[i]).0 == k by {
            if transaction_of(es, n - 1).contains_key(k) {
                let i = choose|i: int| 0 <= i < n - 1 && (#[trigger] es[i]).0 == k;
                assert(0 <= i < n && es[i].0 == k);
            }
            assert(0 <= n - 1 < n && es[n - 1].0 == es[n - 1].0);
        }
        assert forall|i: int| 0 <= i < n implies transaction_of(es, n)[(#[trigger] es[i]).0]
            == es[i].1 by {
            if i < n - 1 && es[i].0 == es[n - 1].0 {
                assert(key_at(es, es[i].0, i) && key_at(es, es[i].0, n - 1));
                lemma_key_unique(es, es[i].0, i, n - 1);
            }
        }
    }
}

/// Whoever has waited for the buffers of a message reads the very transactions that were sent.
pub proof fn transaction_is_read_as_it_was_sent(es: Seq<(EntityId, u64)>, cx: AppContext)
    requires
        sorted(es),
    ensures
        ({
            let sent = transaction_pairs(
                es.map_values(remote_id_of_entry(cx)),
                es.map_values(|e: (EntityId, u64)| e.1),
            );
            let read = awaited_pairs(es.map_values(|e: (EntityId, u64)| e.0), sent);
            transaction_of(read, read.len() as int) == entries_map(es)
        }),
{
    let sent = transaction_pairs(
        es.map_values(remote_id_of_entry(cx)),
        es.map_values(|e: (EntityId, u64)| e.1),
    );
    let read = awaited_pairs(es.map_values(|e: (EntityId, u64)| e.0), sent);
    assert(read =~= es);
    lemma_transaction_of(es, es.len() as int);
    assert forall|k: EntityId| transaction_of(es, es.len() as int).contains_key(k)
        == #[trigger] entries_map(es).contains_key(k) by {
        if transaction_of(es, es.len() as int).contains_key(k) {
            let i = choose|i: int| 0 <= i < es.len() && (#[trigger] es[i]).0 == k;
            lemma_entry(es, i);
        }
        if entries_map(es).contains_key(k) {
            let i = lemma_has_entry(es, k);
            assert(es[i].0 == k);
        }
    }
    assert forall|k: EntityId| #[trigger] entries_map(es).contains_key(k) implies transaction_of(
        es,
        es.len() as int,
    )[k] == entries_map(es)[k] by {
        let i = lemma_has_entry(es, k);
        assert(es[i].0 == k);
    }
    assert(transaction_of(es, es.len() as int) =~= entries_map(es));
}

/// A guest tells of every live buffer that it has, with the version that it has of it.
pub proof fn guests_tell_their_versions(
    es: Seq<(u64, OpenBuffer)>,
    cx: AppContext,
    told: Seq<BufferVersion>,
)
    requires
        told == es.filter_map(live_version(cx)),
    ensures
        ({
            let live = es.filter(|e: (u64, OpenBuffer)| e.1.live(cx) is Some);
            &&& told.len() == live.len()
            &&& forall|k: int|
                0 <= k < told.len() ==> (#[trigger] told[k]).id == live[k].0 && told[k].version
                    == live[k].1.live(cx)->0.snapshot.version
        }),
{
    lemma_filter_map_matches(es, live_version(cx), |e: (u64, OpenBuffer)| e.1.live(cx) is Some);
}

/// A host is sent what it has not seen of each buffer that it names and that is still there, from the
/// version on that it has; the buffers that are waited for are asked for.
pub proof fn hosts_get_what_they_miss(
    project: Project,
    cx: AppContext,
    project_id: u64,
    known: BufferVersion,
    id: u64,
)
    ensures
        ({
            let sent = missing_operations(project, cx, project_id)(known);
            let b = project.buffer_of_id(cx, known.id);
            &&& sent is Some <==> b is Some
            &&& sent is Some ==> sent->0 == (Effect::SendMissingOperations {
                buffer: b->0.entity_id,
                project_id,
                buffer_id: known.id,
                since: known.version,
            })
        }),
        request_effect(project_id)(id) == (Effect::RequestBuffer { project_id, buffer_id: id }),
{
}

/// What is told of a file is its worktree, its entry, its path, its time, and whether it is gone.
pub proof fn files_are_described(file: File)
    ensures
        info_of(file).worktree_id == file.worktree_id.0 as u64,
        info_of(file).entry_id == file.entry_id.0 as u64,
        info_of(file).path == file.path,
        info_of(file).mtime == file.mtime,
        info_of(file).is_deleted == file.is_deleted,
{
}

/// A guest is sent of a buffer that it has: its file, if there is one, its diff base, when it was
/// saved, and the operations since the version that the guest has seen.
pub proof fn guests_get_the_state_of_buffers(project_id: u64, b: Buffer, seen: BufferVersion)
    ensures
        ({
            let sent = sync_effects(project_id, b, seen);
            let id = seen.id;
            &&& sent.len() == (if b.file is Some {
                4nat
            } else {
                3nat
            })
            &&& b.file is Some ==> sent[0] == Effect::Send(
                Message::UpdateBufferFile { project_id, buffer_id: id, file: info_of(b.file->0) },
            )
            &&& sent[sent.len() - 3] == Effect::Send(
                Message::UpdateDiffBase { project_id, buffer_id: id, diff_base: b.diff_base },
            )
            &&& sent[sent.len() - 2] == Effect::Send(
                Message::BufferReloaded { project_id, buffer_id: id, saved: b.saved },
            )
            &&& sent[sent.len() - 1] == (Effect::SendMissingOperations {
                buffer: b.entity_id,
                project_id,
                buffer_id: id,
                since: seen.version,
            })
        }),
{
}

/// A guest gets the news of each buffer that it names and that the host has.
pub proof fn every_named_buffer_is_synchronized(
    project: Project,
    cx: AppContext,
    project_id: u64,
    seen: Seq<BufferVersion>,
    n: int,
    i: int,
)
    requires
        0 <= i < n <= seen.len(),
        project.buffer_of_id(cx, seen[i].id) is Some,
    ensures
        ({
            let b = project.buffer_of_id(cx, seen[i].id)->0;
            &&& forall|e: Effect|
                sync_effects(project_id, b, seen[i]).contains(e) ==> #[trigger] all_sync_effects(
                    project,
                    cx,
                    project_id,
                    seen,
                    n,
                ).contains(e)
            &&& known_ids(project, cx, seen, n).contains(seen[i].id)
            &&& exists|k: int|
                0 <= k < known_buffers(project, cx, seen, n).len() && (#[trigger] known_buffers(
                    project,
                    cx,
                    seen,
                    n,
                )[k]).id == seen[i].id && known_buffers(project, cx, seen, n)[k].version
                    == b.snapshot.version
        }),
    decreases n,
{
    let b = project.buffer_of_id(cx, seen[i].id)->0;
    let before = all_sync_effects(project, cx, project_id, seen, n - 1);
    let after = all_sync_effects(project, cx, project_id, seen, n);
    let own = sync_effects(project_id, b, seen[i]);
    let head = known_buffers(project, cx, seen, n - 1);
    let all = known_buffers(project, cx, seen, n);
    if i < n - 1 {
        every_named_buffer_is_synchronized(project, cx, project_id, seen, n - 1, i);
        assert forall|e: Effect| before.contains(e) implies #[trigger] after.contains(e) by {
            let k = choose|k: int| 0 <= k < before.len() && before[k] == e;
            assert(after[k] == e);
        }
        let k = choose|k: int|
            0 <= k < head.len() && (#[trigger] head[k]).id == seen[i].id && head[k].version
                == b.snapshot.version;
        assert(all[k] == head[k]);
    } else {
        assert forall|e: Effect| own.contains(e) implies #[trigger] after.contains(e) by {
            let k = choose|k: int| 0 <= k < own.len() && own[k] == e;
            assert(after[before.len() + k] == e);
        }
        assert(all[head.len() as int].id == seen[i].id);
    }
}

/// The host names only buffers that the guest has named and that it has itself, with the version that
/// it has of them; exactly these count as shared with the guest.
pub proof fn only_known_buffers_are_named(
    project: Project,
    cx: AppContext,
    seen: Seq<BufferVersion>,
    n: int,
    k: int,
) -> (i: int)
    requires
        n <= seen.len(),
        0 <= k < known_buffers(project, cx, seen, n).len(),
    ensures
        0 <= i < n,
        known_buffers(project, cx, seen, n)[k].id == seen[i].id,
        project.buffer_of_id(cx, seen[i].id) is Some,
        known_buffers(project, cx, seen, n)[k].version == project.buffer_of_id(
            cx,
            seen[i].id,
        )->0.snapshot.version,
        known_ids(project, cx, seen, n).contains(seen[i].id),
    decreases n,
{
    let head = known_buffers(project, cx, seen, n - 1);
    let all = known_buffers(project, cx, seen, n);
    if k < head.len() {
        assert(all[k] == head[k]);
        only_known_buffers_are_named(project, cx, seen, n - 1, k)
    } else {
        n - 1
    }
}

/// A buffer counts as shared with a guest only if the guest has named it and the host has it.
pub proof fn only_named_buffers_are_shared(
    project: Project,
    cx: AppContext,
    seen: Seq<BufferVersion>,
    n: int,
    id: u64,
)
    requires
        n <= seen.len(),
    ensures
        known_ids(project, cx, seen, n).contains(id) <==> exists|i: int|
            0 <= i < n && (#[trigger] seen[i]).id == id && project.buffer_of_id(cx, id) is Some,
    decreases n,
{
    if n > 0 {
        only_named_buffers_are_shared(project, cx, seen, n - 1, id);
        if seen[n - 1].id == id && project.buffer_of_id(cx, id) is Some {
            assert(seen[n - 1].id == id);
        }
        if known_ids(project, cx, seen, n - 1).contains(id) {
            let i = choose|i: int|
                0 <= i < n - 1 && (#[trigger] seen[i]).id == id && project.buffer_of_id(
                    cx,
                    id,
                ) is Some;
            assert(seen[i].id == id);
        }
    }
}

/// The buffers that a guest names are those with the ids, and no others.
pub proof fn named_buffers_are_found(
    project: Project,
    cx: AppContext,
    ids: Seq<u64>,
    n: int,
    buffer: EntityId,
)
    requires
        n <= ids.len(),
    ensures
        entities_of(project, cx, ids, n).contains(buffer) <==> exists|i: int|
            0 <= i < n && project.buffer_of_id(cx, #[trigger] ids[i])->0.entity_id == buffer,
    decreases n,
{
    if n > 0 {
        named_buffers_are_found(project, cx, ids, n - 1, buffer);
        if project.buffer_of_id(cx, ids[n - 1])->0.entity_id == buffer {
            assert(project.buffer_of_id(cx, ids[n - 1])->0.entity_id == buffer);
        }
        if entities_of(project, cx, ids, n - 1).contains(buffer) {
            let i = choose|i: int|
                0 <= i < n - 1 && project.buffer_of_id(cx, #[trigger] ids[i])->0.entity_id
                    == buffer;
            assert(project.buffer_of_id(cx, ids[i])->0.entity_id == buffer);
        }
    }
}

/// Each message leads to its step: an operation is gathered, a resynchronization is begun, and an
/// update of a server is sent behind the operations that wait.
pub proof fn messages_lead_to_their_step(message: BufferOrderedMessage)
    ensures
        message is Operation ==> step_for(message) is Next,
        message is Resync ==> step_for(message) is Synchronize,
        message is LanguageServerUpdate ==> step_for(message) == (SendStep::FlushThenSend {
            language_server_id: message->language_server_id,
            message: message->message,
        }),
{
}

/// Before a resynchronization all operations that wait are dropped; an update of a server drops none.
pub proof fn resynchronizing_drops_what_waits(
    s: SenderView,
    language_server_id: LanguageServerId,
    message: ServerUpdate,
    id: u64,
)
    ensures
        !s.after(BufferOrderedMessage::Resync).waiting.contains_key(id),
        s.after(BufferOrderedMessage::Resync).needs_resync_with_host == s.needs_resync_with_host,
        s.after(BufferOrderedMessage::LanguageServerUpdate { language_server_id, message }) == s,
{
}

/// A participant is sent every buffer of a transaction before the transaction.
pub proof fn buffers_of_a_transaction_are_sent(
    es: Seq<(EntityId, u64)>,
    cx: AppContext,
    peer_id: PeerId,
    i: int,
)
    requires
        0 <= i < es.len(),
    ensures
        es.map_values(create_effect(cx, peer_id))[i] == Effect::QueueUpdate(
            crate::effects::LocalProjectUpdate::CreateBufferForPeer {
                peer_id,
                buffer_id: cx.live_buffer(es[i].0)->0.remote_id,
            },
        ),
        es.map_values(remote_id_of_entry(cx))[i] == cx.live_buffer(es[i].0)->0.remote_id,
{
}

/// For each buffer its transaction is waited for, and kept in the history if that was wanted.
pub proof fn transactions_are_awaited(es: Seq<(EntityId, u64)>, push_to_history: bool, i: int)
    requires
        0 <= i < es.len(),
    ensures
        es.map_values(await_effect(push_to_history))[i] == (Effect::AwaitTransaction {
            buffer: es[i].0,
            transaction: es[i].1,
            push_to_history,
        }),
{
}

/// Buffers are all open exactly if each of them is found by its id.
pub proof fn open_buffers_are_found(project: Project, cx: AppContext, ids: Seq<u64>, n: int)
    ensures
        project.all_open(cx, ids, n) <==> forall|i: int|
            0 <= i < n ==> project.buffer_of_id(cx, #[trigger] ids[i]) is Some,
{
}

} // verus!
