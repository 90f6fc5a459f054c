//! What the project asks of the world around it, in the order in which it is to be done.

use crate::ids::{EntityId, LanguageServerId, PeerId, ProjectEntryId, WorktreeId};
use crate::model::{LineEnding, PointUtf16, ProjectPath, SavedState};
use crate::path::Path;
use std::sync::Arc;
use vstd::prelude::*;

verus! {

/// How an entry of a worktree changed.
#[derive(Clone, Copy, Debug, PartialEq, Eq, Structural)]
pub enum PathChange {
    Added,
    Removed,
    Updated,
    AddedOrUpdated,
    Loaded,
}

/// A change of a worktree's entries.
#[derive(Debug, PartialEq, Eq)]
pub struct UpdatedEntry {
    pub path: Path,
    pub entry_id: ProjectEntryId,
    pub change: PathChange,
}

impl Clone for UpdatedEntry {
    fn clone(&self) -> (r: Self)
        ensures
            r == *self,
    {
        UpdatedEntry { path: self.path.clone(), entry_id: self.entry_id, change: self.change }
    }
}

/// The changes that one scan of a worktree brought.
pub type UpdatedEntriesSet = Arc<Vec<UpdatedEntry>>;

/// What the project tells its observers.
#[derive(Debug, PartialEq, Eq)]
pub enum Event {
    LanguageServerAdded(LanguageServerId),
    LanguageServerRemoved(LanguageServerId),
    LanguageServerLog(LanguageServerId, String),
    Notification(String),
    ActiveEntryChanged(Option<ProjectEntryId>),
    ActivateProjectPanel,
    WorktreeAdded,
    WorktreeRemoved(WorktreeId),
    WorktreeUpdatedEntries(WorktreeId, UpdatedEntriesSet),
    DiskBasedDiagnosticsStarted { language_server_id: LanguageServerId },
    DiskBasedDiagnosticsFinished { language_server_id: LanguageServerId },
    DiagnosticsUpdated { path: ProjectPath, language_server_id: LanguageServerId },
    RemoteIdChanged(Option<u64>),
    DisconnectedFromHost,
    Closed,
    DeletedEntry(ProjectEntryId),
    CollaboratorUpdated { old_peer_id: PeerId, new_peer_id: PeerId },
    CollaboratorJoined(PeerId),
    CollaboratorLeft(PeerId),
    RefreshInlayHints,
}

/// An operation on a buffer, in the form in which it is sent. The payload is kept by whoever
/// sends it, under this number.
#[derive(Clone, Copy, Debug, PartialEq, Eq, Structural)]
pub struct Operation(pub u64);

/// What a host tells its guests of a language server.
#[derive(Debug, PartialEq, Eq)]
pub enum ServerUpdate {
    WorkStart { token: String, message: Option<String>, percentage: Option<u32> },
    WorkProgress { token: String, message: Option<String>, percentage: Option<u32> },
    WorkEnd { token: String },
    DiskBasedDiagnosticsUpdating,
    DiskBasedDiagnosticsUpdated,
}

/// A message that is ordered with respect to buffer operations.
#[derive(Debug, PartialEq, Eq)]
pub enum BufferOrderedMessage {
    Operation { buffer_id: u64, operation: Operation },
    LanguageServerUpdate { language_server_id: LanguageServerId, message: ServerUpdate },
    Resync,
}

/// A change that the host has to announce.
#[derive(Clone, Copy, Debug, PartialEq, Eq, Structural)]
pub enum LocalProjectUpdate {
    WorktreesChanged,
    CreateBufferForPeer { peer_id: PeerId, buffer_id: u64 },
}

/// What the participants of a shared project know of a worktree.
#[derive(Debug, PartialEq, Eq)]
pub struct WorktreeMetadata {
    pub id: u64,
    pub root_name: String,
    pub visible: bool,
    pub abs_path: Path,
}

/// What is told of a buffer's file.
#[derive(Debug, PartialEq, Eq)]
pub struct FileInfo {
    pub worktree_id: u64,
    pub entry_id: u64,
    pub path: Path,
    pub mtime: u64,
    pub is_deleted: bool,
}

/// A part of a buffer that is handed to a peer.
#[derive(Debug, PartialEq, Eq)]
pub enum BufferPart {
    /// The buffer without its operations.
    State { buffer: EntityId },
    Chunk { buffer_id: u64, operations: Arc<Vec<Operation>>, is_last: bool },
}

/// A message to the other participants of a shared project.
#[derive(Debug, PartialEq, Eq)]
pub enum Message {
    LeaveProject { project_id: u64 },
    UnshareProject { project_id: u64 },
    StartLanguageServer { project_id: u64, id: u64, name: String },
    UpdateWorktreeSettings {
        project_id: u64,
        worktree_id: u64,
        path: Path,
        content: Option<Arc<String>>,
    },
    UpdateProject { project_id: u64, worktrees: Vec<WorktreeMetadata> },
    CreateBufferForPeer { project_id: u64, peer_id: PeerId, part: BufferPart },
    UpdateBuffer { project_id: u64, buffer_id: u64, operations: Vec<Operation> },
    UpdateLanguageServer { project_id: u64, language_server_id: u64, update: ServerUpdate },
    RefreshInlayHints { project_id: u64 },
    UpdateBufferFile { project_id: u64, buffer_id: u64, file: FileInfo },
    UpdateDiffBase { project_id: u64, buffer_id: u64, diff_base: Option<Arc<String>> },
    /// The state in which a buffer was last saved.
    BufferReloaded { project_id: u64, buffer_id: u64, saved: SavedState },
}

/// A change of a document, as a language server is told of it.
#[derive(Debug, PartialEq, Eq)]
pub struct ContentChange {
    /// What is replaced; the whole text where there is no range.
    pub range: Option<(PointUtf16, PointUtf16)>,
    pub text: Arc<String>,
}

/// What a server is told of a changed document.
#[derive(Debug, PartialEq, Eq)]
pub enum DocumentChange {
    /// The whole text.
    Full(Arc<String>),
    /// The edits since the text of the given version.
    EditsSince(u64),
}

/// How a file on disk changed.
#[derive(Clone, Copy, Debug, PartialEq, Eq, Structural)]
pub enum FileChangeType {
    Created,
    Changed,
    Deleted,
}

#[derive(Debug, PartialEq, Eq)]
pub struct FileEvent {
    pub path: Path,
    pub typ: FileChangeType,
}

/// A notification to a language server. Documents are named by their absolute paths.
#[allow(inconsistent_fields)]
#[derive(Debug, PartialEq, Eq)]
pub enum ServerNotification {
    DidOpen { document: Path, language_id: Option<String>, version: i32, text: Arc<String> },
    DidChange { document: Path, version: i32, change: DocumentChange },
    DidSave { document: Path, text: Option<Arc<String>> },
    DidClose { document: Path },
    DidChangeConfiguration { settings: Arc<String> },
    DidChangeWatchedFiles { changes: Vec<FileEvent> },
}

/// One thing to be done.
#[allow(inconsistent_fields)]
#[derive(Debug, PartialEq, Eq)]
pub enum Effect {
    /// Tell the observers of the project.
    Emit(Event),
    /// The project changed; its views are to be drawn anew.
    Notify,
    /// Send a message to the other participants.
    Send(Message),
    /// Put a message at the end of the queue of ordered messages.
    QueueMessage(BufferOrderedMessage),
    /// Put an update at the end of the host's queue.
    QueueUpdate(LocalProjectUpdate),
    /// Wake everyone who waits for a buffer to be opened.
    WakeBufferWaiters,
    /// Wake everyone who waits for edits of a buffer.
    GiveUpWaiting(EntityId),
    ShareWorktree { worktree: EntityId, project_id: u64 },
    UnshareWorktree(EntityId),
    DisconnectWorktree(EntityId),
    /// Forget the cursors of a participant that has left.
    RemovePeer { buffer: EntityId, replica_id: u16 },
    ClearLocalSettings(EntityId),
    SetLocalSettings { worktree: EntityId, path: Path, content: Option<Arc<String>> },
    NotifyServer(LanguageServerId, ServerNotification),
    SetCompletionTriggers { buffer: EntityId, characters: Option<Arc<Vec<String>>> },
    /// Take all diagnostics of a server from a buffer.
    ClearBufferDiagnostics { buffer: EntityId, server_id: LanguageServerId },
    /// Take all diagnostics of a server from a worktree.
    ClearWorktreeDiagnostics { worktree: EntityId, server_id: LanguageServerId },
    /// Show the diagnostics that the buffer's worktree has for its path.
    ShowWorktreeDiagnostics { buffer: EntityId },
    ApplyOperations { buffer: EntityId, operations: Vec<Operation> },
    /// Give a buffer the languages that it can be written in.
    SetLanguageRegistry(EntityId),
    /// Observe the events and the release of a buffer.
    ObserveBuffer(EntityId),
    /// Find the language of a buffer by its path and contents.
    DetectLanguage(EntityId),
    SetLanguage { buffer: EntityId, language: Option<u64> },
    Reparse(EntityId),
    RegisterWithCopilot(EntityId),
    /// Recalculate the git diffs of the buffers that need it, once the current update is over.
    DeferDiffRecalculation,
    /// Recalculate the git diffs after a delay in milliseconds, in place of an earlier such plan.
    DebounceDiffRecalculation { delay: u64 },
    SetDiffBase { buffer: EntityId, diff_base: Option<Arc<String>> },
    NotifyBuffer(EntityId),
    /// Send a participant the operations that it has not seen: those since the given version.
    SendMissingOperations { buffer: EntityId, project_id: u64, buffer_id: u64, since: u64 },
    /// Ask the host once more for a buffer.
    RequestBuffer { project_id: u64, buffer_id: u64 },
    /// Let a server that reports no progress have its diagnostics finished after a delay in
    /// milliseconds, in place of an earlier such plan.
    StartDiagnosticsTimer { server_id: LanguageServerId, delay: u64 },
    /// Start the process of a language server that has been entered as starting.
    StartServer {
        server_id: LanguageServerId,
        worktree_id: WorktreeId,
        root_path: Path,
        language: u64,
    },
    ScanPathPrefix { worktree: EntityId, prefix: String },
    UpdateBufferFile { buffer: EntityId, file: FileInfo },
    /// The host has saved a buffer in the given state.
    BufferSaved { buffer: EntityId, version: u64, fingerprint: u64, mtime: u64 },
    /// The host has read a buffer from disk again.
    BufferReloaded {
        buffer: EntityId,
        version: u64,
        fingerprint: u64,
        line_ending: LineEnding,
        mtime: u64,
    },
    /// Enter the counts of a path's problems in a worktree that another participant hosts.
    SetDiagnosticSummary {
        worktree: EntityId,
        path: Path,
        language_server_id: LanguageServerId,
        error_count: u32,
        warning_count: u32,
    },
    /// Wait for the edits of a transaction that was made elsewhere, then enter it in the buffer's
    /// history where that is wanted.
    AwaitTransaction { buffer: EntityId, transaction: u64, push_to_history: bool },
}

} // verus!
