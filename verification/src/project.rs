//! The state of a project.

use crate::effects::Operation;
use crate::ids::{
    EntityId, LanguageServerId, LanguageServerName, PeerId, ProjectEntryId, WorktreeId,
};
use crate::map::{SortedMap, SortedSet};
use crate::model::{
    AppContext, Buffer, Language, LanguageServer, LspAdapter, ProjectPath, TextSnapshot, Worktree,
};
use crate::path::Path;
use globset::GlobSet;
use std::sync::Arc;
use vstd::prelude::*;

verus! {

/// Why the project refuses a request.
#[derive(Clone, Copy, Debug, PartialEq, Eq, Structural)]
pub enum ProjectError {
    AlreadyShared,
    SubscriptionFailed,
    UnsharingRemoteProject,
    UnsharingUnsharedProject,
    GuestsCannotCreateBuffers,
    NoSuchPath,
    NoSuchWorktree,
    NoSuchEntry,
    NoSuchBuffer(u64),
    NoSuchServer,
    NoWorktreeForDiagnostics,
    UriIsNotAFile,
    Disconnected,
    BufferAlreadyRegistered(u64),
    BufferHasNoFile,
    UnknownBuffer,
    UnknownVersion,
    UnknownPeer,
    MissingPeerId,
    MissingCollaborator,
    MissingServer,
    MissingVariant,
    InvalidOptions,
    InitializationFailed,
    ServerUnreachable,
    StepFailed,
    MissingSymbol,
    InvalidSymbolSignature,
    InvalidSymbolPosition,
    ProjectNotShared,
    NotAGuest,
    CodeActionIsOutdated,
    MissingTargetStart,
    MissingTargetEnd,
    MissingRangeStart,
    MissingRangeEnd,
    MissingMtime,
    MissingLineEnding,
    InvalidFingerprint,
    InvalidCompletion,
    InvalidAction,
    InvalidPosition,
}

/// A buffer of the project: held on to, merely known, or still to come with operations waiting.
#[derive(Debug)]
pub enum OpenBuffer {
    Strong(EntityId),
    Weak(EntityId),
    Operations(Vec<Operation>),
}

impl OpenBuffer {
    /// The buffer, while it is alive.
    pub open spec fn live(self, cx: AppContext) -> Option<Buffer> {
        match self {
            OpenBuffer::Strong(id) => cx.live_buffer(id),
            OpenBuffer::Weak(id) => cx.live_buffer(id),
            OpenBuffer::Operations(_) => None,
        }
    }

    pub fn upgrade<'a>(&self, cx: &'a AppContext) -> (r: Option<&'a Buffer>)
        ensures
            match r {
                Some(b) => self.live(*cx) == Some(*b),
                None => self.live(*cx) is None,
            },
    {
        match self {
            OpenBuffer::Strong(id) => cx.buffer(*id),
            OpenBuffer::Weak(id) => cx.buffer(*id),
            OpenBuffer::Operations(_) => None,
        }
    }
}

/// A worktree of the project: held on to, or merely known.
#[derive(Clone, Copy, Debug, PartialEq, Eq, Structural)]
pub enum WorktreeHandle {
    Strong(EntityId),
    Weak(EntityId),
}

impl WorktreeHandle {
    pub open spec fn id(self) -> EntityId {
        match self {
            WorktreeHandle::Strong(id) => id,
            WorktreeHandle::Weak(id) => id,
        }
    }

    /// The worktree, while it is alive.
    pub open spec fn live(self, cx: AppContext) -> Option<Worktree> {
        cx.live_worktree(self.id())
    }

    pub fn upgrade<'a>(&self, cx: &'a AppContext) -> (r: Option<&'a Worktree>)
        ensures
            match r {
                Some(w) => self.live(*cx) == Some(*w),
                None => self.live(*cx) is None,
            },
    {
        match self {
            WorktreeHandle::Strong(id) => cx.worktree(*id),
            WorktreeHandle::Weak(id) => cx.worktree(*id),
        }
    }

    pub fn handle_id(&self) -> (r: EntityId)
        ensures
            r == self.id(),
    {
        match self {
            WorktreeHandle::Strong(id) => *id,
            WorktreeHandle::Weak(id) => *id,
        }
    }
}

/// The part that the project plays in a shared project.
#[derive(Clone, Copy, Debug, PartialEq, Eq, Structural)]
pub enum ProjectClientState {
    /// The project is shared from here.
    Local { remote_id: u64 },
    /// The project is shared by another participant.
    Remote { sharing_has_stopped: bool, remote_id: u64, replica_id: u16 },
}

/// A participant of a shared project.
#[derive(Clone, Copy, Debug, PartialEq, Eq, Structural)]
pub struct Collaborator {
    pub peer_id: PeerId,
    pub replica_id: u16,
    pub user_id: u64,
}

/// A language server that the project has started.
#[derive(Debug)]
pub enum LanguageServerState {
    Starting,
    Running {
        language: Arc<Language>,
        adapter: Arc<LspAdapter>,
        server: Arc<LanguageServer>,
        watched_paths: SortedMap<WorktreeId, GlobSet>,
        /// A timer runs, after which the server's diagnostics count as finished.
        simulate_disk_based_diagnostics_completion: bool,
    },
}

/// How far a task of a language server has come.
#[derive(Debug, PartialEq, Eq)]
pub struct LanguageServerProgress {
    pub message: Option<String>,
    pub percentage: Option<usize>,
    /// The moment of the last report, as the caller's clock gave it.
    pub last_update_at: u64,
}

/// What is known of the work of a language server.
#[derive(Debug)]
pub struct LanguageServerStatus {
    pub name: String,
    pub pending_work: SortedMap<String, LanguageServerProgress>,
    pub has_pending_diagnostic_updates: bool,
    pub progress_tokens: SortedSet<String>,
}

/// The text of a buffer as a language server knows it.
#[derive(Debug)]
pub struct LspBufferSnapshot {
    pub version: i32,
    pub snapshot: TextSnapshot,
}

/// The transactions that one request made in several buffers.
#[derive(Debug)]
pub struct ProjectTransaction(pub SortedMap<EntityId, u64>);

/// The prettier that is used where a project has none of its own.
#[derive(Debug)]
pub struct DefaultPrettier {
    pub is_installing: bool,
    pub installed_plugins: SortedSet<String>,
}

/// A project: its worktrees, the buffers that are open in it, the language servers that work on
/// it, and the participants that it is shared with.
///
/// A language server is kept in three places: `language_servers` knows by its id whether it starts
/// or runs, `language_server_ids` knows which server works on a worktree under which name, and
/// `language_server_statuses` knows what the server is busy with. Several worktrees can have the
/// same server.
#[derive(Debug)]
pub struct Project {
    pub worktrees: Vec<WorktreeHandle>,
    pub active_entry: Option<ProjectEntryId>,
    pub supplementary_language_servers: SortedMap<
        LanguageServerId,
        (LanguageServerName, Arc<LanguageServer>),
    >,
    pub language_servers: SortedMap<LanguageServerId, LanguageServerState>,
    pub language_server_ids: SortedMap<(WorktreeId, LanguageServerName), LanguageServerId>,
    pub language_server_statuses: SortedMap<LanguageServerId, LanguageServerStatus>,
    pub last_workspace_edits_by_language_server: SortedMap<LanguageServerId, ProjectTransaction>,
    pub join_project_response_message_id: u32,
    pub next_diagnostic_group_id: usize,
    pub client_state: Option<ProjectClientState>,
    pub collaborators: SortedMap<PeerId, Collaborator>,
    pub client_subscriptions: Vec<u64>,
    pub next_buffer_id: u64,
    pub shared_buffers: SortedMap<PeerId, SortedSet<u64>>,
    pub loading_buffers_by_path: SortedSet<ProjectPath>,
    pub loading_local_worktrees: SortedSet<Path>,
    pub opened_buffers: SortedMap<u64, OpenBuffer>,
    pub local_buffer_ids_by_path: SortedMap<ProjectPath, u64>,
    pub local_buffer_ids_by_entry_id: SortedMap<ProjectEntryId, u64>,
    /// The buffers that a guest waits for; those whose state has come already, with their entity.
    pub incomplete_remote_buffers: SortedMap<u64, Option<EntityId>>,
    /// The texts that each server knows of each buffer, oldest first.
    pub buffer_snapshots: SortedMap<u64, SortedMap<LanguageServerId, Vec<LspBufferSnapshot>>>,
    pub buffers_being_formatted: SortedSet<u64>,
    pub buffers_needing_diff: SortedSet<EntityId>,
    pub nonce: u128,
    /// The settings of each language server, as JSON text.
    pub current_lsp_settings: SortedMap<String, String>,
    pub has_node: bool,
    /// Copilot is listened to.
    pub has_copilot_subscription: bool,
    /// The log of Copilot's server is listened to.
    pub has_copilot_log_subscription: bool,
    pub default_prettier: Option<DefaultPrettier>,
    pub prettier_instances: SortedSet<(Option<WorktreeId>, Path)>,
}

impl Project {
    pub open spec fn remote_id_of(self) -> Option<u64> {
        match self.client_state {
            Some(ProjectClientState::Local { remote_id }) => Some(remote_id),
            Some(ProjectClientState::Remote { remote_id, .. }) => Some(remote_id),
            None => None,
        }
    }

    /// The id under which the project is shared.
    pub fn remote_id(&self) -> (r: Option<u64>)
        ensures
            r == self.remote_id_of(),
    {
        match self.client_state {
            Some(ProjectClientState::Local { remote_id }) => Some(remote_id),
            Some(ProjectClientState::Remote { remote_id, .. }) => Some(remote_id),
            None => None,
        }
    }

    /// The number that tells this participant's edits from the others'; the host's is 0.
    pub fn replica_id(&self) -> (r: u16)
        ensures
            r == (match self.client_state {
                Some(ProjectClientState::Remote { replica_id, .. }) => replica_id,
                _ => 0u16,
            }),
    {
        match self.client_state {
            Some(ProjectClientState::Remote { replica_id, .. }) => replica_id,
            _ => 0,
        }
    }

    pub open spec fn is_guest(self) -> bool {
        self.client_state matches Some(ProjectClientState::Remote { .. })
    }

    /// Tells whether nobody else hosts the project.
    pub fn is_local(&self) -> (r: bool)
        ensures
            r == !self.is_guest(),
    {
        match self.client_state {
            Some(ProjectClientState::Remote { .. }) => false,
            _ => true,
        }
    }

    /// Tells whether another participant hosts the project.
    pub fn is_remote(&self) -> (r: bool)
        ensures
            r == self.is_guest(),
    {
        !self.is_local()
    }

    /// Tells whether the project is shared from here.
    pub fn is_shared(&self) -> (r: bool)
        ensures
            r == (self.client_state matches Some(ProjectClientState::Local { .. })),
    {
        match self.client_state {
            Some(ProjectClientState::Local { .. }) => true,
            _ => false,
        }
    }

    /// Tells whether the host has stopped sharing.
    pub fn is_read_only(&self) -> (r: bool)
        ensures
            r == (self.client_state matches Some(
                ProjectClientState::Remote { sharing_has_stopped: true, .. },
            )),
    {
        match self.client_state {
            Some(ProjectClientState::Remote { sharing_has_stopped, .. }) => sharing_has_stopped,
            _ => false,
        }
    }
}

/// A project is a guest's exactly if another participant hosts it. It is known under the id that it is
/// shared by, from here or from elsewhere, and under none if it is not shared.
pub proof fn shared_projects_have_an_id(project: Project)
    ensures
        project.client_state is None ==> project.remote_id_of() is None && !project.is_guest(),
        project.client_state is Some && project.client_state->0 is Local ==> !project.is_guest()
            && project.remote_id_of() == Some(project.client_state->0->Local_remote_id),
        project.client_state is Some && project.client_state->0 is Remote ==> project.is_guest()
            && project.remote_id_of() == Some(project.client_state->0->Remote_remote_id),
{
}

/// A worktree is the same whether or not it is held on to.
pub proof fn handles_lead_to_their_worktree(id: EntityId, cx: AppContext)
    ensures
        WorktreeHandle::Strong(id).id() == id,
        WorktreeHandle::Weak(id).id() == id,
        WorktreeHandle::Strong(id).live(cx) == cx.live_worktree(id),
        WorktreeHandle::Weak(id).live(cx) == cx.live_worktree(id),
{
}

} // verus!
