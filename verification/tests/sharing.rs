#![allow(dead_code)]

use project2::buffers::OpenAction;
use project2::collab::{CollaboratorInfo, JoinProjectResponse, ServerInfo};
use project2::effects::{
    BufferOrderedMessage, BufferPart, Effect, Event, FileInfo, LocalProjectUpdate, Message,
    Operation, ServerUpdate, WorktreeMetadata,
};
use project2::ids::PeerId;
use project2::peers::{buffer_messages, share_announced_worktrees, ReceivedPart, RejoinedProject};
use project2::project::{
    OpenBuffer, ProjectClientState, ProjectError, ProjectTransaction, WorktreeHandle,
};
use project2::handlers::OpenReply;
use project2::sync::{
    BufferVersion, MessageSender, SendStep, TransactionMessage, MAX_BATCH_SIZE,
};
use project2::ids::{
    EntityId, LanguageServerId, LanguageServerName, ProjectEntryId, WorktreeId,
};
use project2::map::SortedMap;
use project2::model::{
    AppContext, Buffer, Entry, File, FormatOnSave, Formatter, Language, LanguageServer,
    LanguageSettings, LineEnding, LspAdapter, SavedState, TextDocumentSync, TextSnapshot, Worktree,
};
use project2::path::{Component, Path};
use project2::project::{LanguageServerState, Project};
use std::sync::Arc;

fn path(text: &str) -> Path {
    let mut components = Vec::new();
    if text.starts_with('/') {
        components.push(Component::RootDir);
    }
    for part in text.split('/') {
        match part {
            "" => {}
            "." => components.push(Component::CurDir),
            ".." => components.push(Component::ParentDir),
            name => components.push(Component::Normal(name.to_string())),
        }
    }
    Path::from_components(components)
}

fn settings(enable_language_server: bool) -> Arc<LanguageSettings> {
    Arc::new(LanguageSettings {
        enable_language_server,
        formatter: Formatter::Auto,
        format_on_save: FormatOnSave::On,
        remove_trailing_whitespace_on_save: true,
        ensure_final_newline_on_save: true,
        tab_size: 4,
    })
}

fn adapter(name: &str) -> LspAdapter {
    LspAdapter {
        name: LanguageServerName(name.to_string()),
        disk_based_diagnostics_progress_token: None,
        disk_based_diagnostic_sources: vec![],
        language_ids: vec![("Rust".to_string(), "rust".to_string())],
        initialization_options: None,
        prettier_plugins: vec![],
        can_be_reinstalled: true,
        reinstall_attempt_count: 0,
    }
}

fn language(id: u64, name: &str, adapters: Vec<LspAdapter>) -> Arc<Language> {
    Arc::new(Language {
        id,
        name: name.to_string(),
        prettier_parser_name: None,
        lsp_adapters: adapters.into_iter().map(Arc::new).collect(),
    })
}

fn server(id: usize, sync: Option<TextDocumentSync>) -> LanguageServer {
    LanguageServer {
        server_id: LanguageServerId(id),
        name: format!("server {}", id),
        root_path: path("/root"),
        text_document_sync: sync,
        has_completion_provider: true,
        can_resolve_completions: false,
        completion_trigger_characters: None,
        document_formatting_provider: None,
        document_range_formatting_provider: None,
        inlay_hints_can_be_resolved: false,
    }
}

fn running(language: &Arc<Language>, server: LanguageServer) -> LanguageServerState {
    LanguageServerState::Running {
        language: language.clone(),
        adapter: language.lsp_adapters[0].clone(),
        server: Arc::new(server),
        watched_paths: SortedMap::new(),
        simulate_disk_based_diagnostics_completion: false,
    }
}

fn entry(id: usize, name: &str, is_file: bool) -> Entry {
    Entry { id: ProjectEntryId(id), path: path(name), mtime: 1, is_file, is_ignored: false }
}

fn worktree(entity: u64, id: usize, root: &str, entries: Vec<Entry>) -> Worktree {
    Worktree {
        entity_id: EntityId(entity),
        id: WorktreeId(id),
        is_local: true,
        is_visible: true,
        root_name: path(root).file_name().unwrap_or("".to_string()),
        abs_path: path(root),
        entries,
        diagnostic_summaries: vec![],
        local_settings: vec![],
    }
}

fn file(tree: &Worktree, name: &str, entry_id: usize) -> File {
    File {
        worktree: tree.entity_id,
        worktree_id: tree.id,
        path: path(name),
        abs_path: tree.abs_path.join(&path(name)),
        entry_id: ProjectEntryId(entry_id),
        mtime: 1,
        is_local: tree.is_local,
        is_deleted: false,
    }
}

fn buffer(
    entity: u64,
    remote_id: u64,
    file: Option<File>,
    language: Option<&Arc<Language>>,
    text: &str,
) -> Buffer {
    Buffer {
        entity_id: EntityId(entity),
        remote_id,
        file,
        language: language.cloned(),
        is_plain_text: false,
        contains_unknown_injections: false,
        is_dirty: false,
        snapshot: TextSnapshot { version: 1, text: Arc::new(text.to_string()) },
        saved: SavedState {
            version: 1,
            fingerprint: 0,
            line_ending: LineEnding::Unix,
            mtime: 1,
        },
        diff_base: None,
        settings: settings(true),
    }
}

fn context(buffers: Vec<Buffer>, worktrees: Vec<Worktree>) -> AppContext {
    AppContext { buffers, worktrees, language_settings: vec![], default_settings: settings(true) }
}

fn project() -> Project {
    Project::local_with_nonce(42, SortedMap::new(), false)
}

fn guest() -> Option<ProjectClientState> {
    Some(ProjectClientState::Remote { sharing_has_stopped: false, remote_id: 7, replica_id: 3 })
}

fn info(peer: u64, replica: u32) -> CollaboratorInfo {
    CollaboratorInfo { peer_id: Some(PeerId(peer)), replica_id: replica, user_id: 50 + peer }
}

/// A project with a hidden worktree and an open buffer.
fn scene() -> (Project, AppContext) {
    let mut tree = worktree(1, 10, "/root", vec![entry(2, "a.rs", true)]);
    tree.is_visible = false;
    let b = buffer(100, 5, Some(file(&tree, "a.rs", 2)), None, "text");
    let cx = context(vec![b], vec![tree]);
    let mut p = project();
    let mut out = vec![];
    p.add_worktree(&cx.worktrees[0], &mut out);
    p.register_buffer(&cx.buffers[0], None, &cx, &mut out).unwrap();
    (p, cx)
}

fn is_held(p: &Project) -> bool {
    matches!(p.opened_buffers.get(&5), Some(OpenBuffer::Strong(EntityId(100))))
}

#[test]
fn unsharing_undoes_sharing() {
    let (mut p, mut cx) = scene();
    cx.worktrees[0].local_settings = vec![(path("sub"), Arc::new("{}".to_string()))];
    let mut out = vec![];
    assert_eq!(p.shared(7, true, &cx, &mut out), Ok(()));
    assert!(p.is_shared());
    assert!(p.is_local());
    assert_eq!(p.remote_id(), Some(7));
    assert!(is_held(&p));
    assert_eq!(p.worktrees, vec![WorktreeHandle::Strong(EntityId(1))]);
    assert_eq!(
        out,
        vec![
            Effect::Send(Message::UpdateWorktreeSettings {
                project_id: 7,
                worktree_id: 10,
                path: path("sub"),
                content: Some(Arc::new("{}".to_string())),
            }),
            Effect::QueueUpdate(LocalProjectUpdate::WorktreesChanged),
            Effect::Notify,
            Effect::Emit(Event::RemoteIdChanged(Some(7))),
            Effect::Notify,
        ]
    );
    assert_eq!(p.shared(8, true, &cx, &mut out), Err(ProjectError::AlreadyShared));
    out.clear();
    assert_eq!(p.unshare(true, &cx, &mut out), Ok(()));
    assert!(!p.is_shared());
    assert_eq!(p.remote_id(), None);
    assert!(matches!(p.opened_buffers.get(&5), Some(OpenBuffer::Weak(EntityId(100)))));
    assert_eq!(p.worktrees, vec![WorktreeHandle::Weak(EntityId(1))]);
    assert_eq!(
        out,
        vec![
            Effect::UnshareWorktree(EntityId(1)),
            Effect::GiveUpWaiting(EntityId(100)),
            Effect::Send(Message::UnshareProject { project_id: 7 }),
            Effect::Notify,
            Effect::Notify,
        ]
    );
    assert_eq!(p.unshare(true, &cx, &mut out), Err(ProjectError::UnsharingUnsharedProject));
    p.client_state = guest();
    assert_eq!(p.unshare(true, &cx, &mut out), Err(ProjectError::UnsharingRemoteProject));
}

#[test]
fn a_failed_subscription_shares_nothing() {
    let (mut p, cx) = scene();
    let mut out = vec![];
    assert_eq!(p.shared(7, false, &cx, &mut out), Err(ProjectError::SubscriptionFailed));
    assert!(!p.is_shared());
    assert!(out.is_empty());
}

#[test]
fn a_guest_is_disconnected() {
    let (mut p, mut cx) = scene();
    cx.worktrees[0].is_local = false;
    p.client_state = guest();
    let mut out = vec![];
    assert!(!p.is_read_only());
    p.disconnected_from_host(&cx, &mut out);
    assert!(p.is_read_only());
    assert!(p.is_remote());
    assert_eq!(p.replica_id(), 3);
    assert_eq!(
        out,
        vec![
            Effect::DisconnectWorktree(EntityId(1)),
            Effect::GiveUpWaiting(EntityId(100)),
            Effect::WakeBufferWaiters,
            Effect::Emit(Event::DisconnectedFromHost),
            Effect::Notify,
        ]
    );
    out.clear();
    p.release(&cx, &mut out);
    assert_eq!(out.last(), Some(&Effect::WakeBufferWaiters));
    assert!(out.contains(&Effect::Send(Message::LeaveProject { project_id: 7 })));
}

#[test]
fn a_closed_project_says_so() {
    let (p, _) = scene();
    let mut out = vec![];
    p.close(&mut out);
    assert_eq!(out, vec![Effect::Emit(Event::Closed)]);
}

#[test]
fn each_project_has_a_nonce_of_its_own() {
    let a = Project::local(SortedMap::new(), false);
    let b = Project::local(SortedMap::new(), false);
    assert_ne!(a.nonce, b.nonce);
    assert_eq!(project().nonce, 42);
}

#[test]
fn a_guest_joins() {
    let response = JoinProjectResponse {
        message_id: 4,
        replica_id: 3,
        language_servers: vec![ServerInfo { id: 7, name: "rust-analyzer".to_string() }],
        collaborators: vec![info(1, 0), info(2, 1)],
    };
    let mut tree = worktree(1, 10, "/root", vec![]);
    tree.is_local = false;
    let mut out = vec![];
    let p = Project::remote(7, response, &vec![tree], SortedMap::new(), false, &mut out).unwrap();
    assert!(p.is_remote());
    assert_eq!(p.replica_id(), 3);
    assert_eq!(p.worktrees, vec![WorktreeHandle::Strong(EntityId(1))]);
    assert_eq!(p.collaborators().len(), 2);
    assert_eq!(p.host().unwrap().peer_id, PeerId(1));
    let status = p.language_server_statuses.get(&LanguageServerId(7)).unwrap();
    assert_eq!(status.name, "rust-analyzer");
    let response = JoinProjectResponse {
        message_id: 4,
        replica_id: 3,
        language_servers: vec![],
        collaborators: vec![CollaboratorInfo { peer_id: None, replica_id: 0, user_id: 1 }],
    };
    let refused = Project::remote(7, response, &vec![], SortedMap::new(), false, &mut out);
    assert_eq!(refused.err(), Some(ProjectError::MissingPeerId));
}

#[test]
fn collaborators_come_and_go() {
    let (mut p, cx) = scene();
    p.client_state = Some(ProjectClientState::Local { remote_id: 7 });
    let mut out = vec![];
    assert_eq!(p.handle_add_collaborator(Some(info(2, 4)), &mut out), Ok(()));
    assert!(out.contains(&Effect::Emit(Event::CollaboratorJoined(PeerId(2)))));
    assert_eq!(
        p.handle_add_collaborator(None, &mut out),
        Err(ProjectError::MissingCollaborator)
    );
    out.clear();
    let moved =
        p.handle_update_project_collaborator(Some(PeerId(2)), Some(PeerId(9)), &mut out);
    assert_eq!(moved, Ok(()));
    assert!(out.contains(&Effect::Emit(Event::CollaboratorUpdated {
        old_peer_id: PeerId(2),
        new_peer_id: PeerId(9),
    })));
    assert!(p.collaborators.contains_key(&PeerId(9)));
    assert_eq!(
        p.handle_update_project_collaborator(Some(PeerId(2)), Some(PeerId(8)), &mut out),
        Err(ProjectError::UnknownPeer)
    );
    assert_eq!(
        p.handle_update_project_collaborator(None, Some(PeerId(8)), &mut out),
        Err(ProjectError::MissingPeerId)
    );
    out.clear();
    assert_eq!(p.handle_remove_collaborator(Some(PeerId(9)), &cx, &mut out), Ok(()));
    assert!(out.contains(&Effect::RemovePeer { buffer: EntityId(100), replica_id: 4 }));
    assert!(out.contains(&Effect::Emit(Event::CollaboratorLeft(PeerId(9)))));
    assert!(p.collaborators.is_empty());
    assert_eq!(
        p.handle_remove_collaborator(Some(PeerId(9)), &cx, &mut out),
        Err(ProjectError::UnknownPeer)
    );
    assert_eq!(
        p.handle_remove_collaborator(None, &cx, &mut out),
        Err(ProjectError::MissingPeerId)
    );
}

#[test]
fn shared_buffers_follow_a_peer() {
    let (mut p, cx) = scene();
    let mut out = vec![];
    p.shared(7, true, &cx, &mut out).unwrap();
    p.handle_add_collaborator(Some(info(2, 4)), &mut out).unwrap();
    assert_eq!(p.begin_creating_buffer_for_peer(PeerId(2), 5), Some(EntityId(100)));
    assert_eq!(p.begin_creating_buffer_for_peer(PeerId(2), 5), None);
    p.handle_update_project_collaborator(Some(PeerId(2)), Some(PeerId(9)), &mut out).unwrap();
    assert!(p.shared_buffers.get(&PeerId(9)).unwrap().contains(&5));
    assert!(!p.shared_buffers.contains_key(&PeerId(2)));
    assert_eq!(p.begin_creating_buffer_for_peer(PeerId(9), 5), None);
}

#[test]
fn the_host_names_the_worktrees() {
    let (mut p, mut cx) = scene();
    cx.worktrees[0].is_local = false;
    p.client_state = guest();
    let mut made = worktree(2, 20, "/new", vec![]);
    made.is_local = false;
    assert_eq!(p.missing_worktrees(&vec![20], &cx), vec![true]);
    assert_eq!(p.missing_worktrees(&vec![10, 20], &cx), vec![false, true]);
    let mut out = vec![];
    assert_eq!(p.set_worktrees_from_proto(&vec![20], &vec![Some(made)], &cx, &mut out), Ok(()));
    assert_eq!(p.worktrees, vec![WorktreeHandle::Strong(EntityId(2))]);
    assert_eq!(
        out,
        vec![
            Effect::Emit(Event::WorktreeAdded),
            Effect::Notify,
            Effect::Notify,
            Effect::Emit(Event::WorktreeRemoved(WorktreeId(10))),
        ]
    );
    p.client_state = None;
    assert_eq!(
        p.set_worktrees_from_proto(&vec![], &vec![], &cx, &mut out),
        Err(ProjectError::ProjectNotShared)
    );
}

#[test]
fn old_news_of_the_project_is_ignored() {
    let (mut p, mut cx) = scene();
    cx.worktrees[0].is_local = false;
    p.client_state = guest();
    p.join_project_response_message_id = 5;
    let mut out = vec![];
    assert_eq!(p.handle_update_project(5, &vec![], &vec![], &cx, &mut out), Ok(()));
    assert_eq!(p.worktrees.len(), 1);
    assert!(out.is_empty());
    assert_eq!(p.handle_update_project(6, &vec![], &vec![], &cx, &mut out), Ok(()));
    assert!(p.worktrees.is_empty());
}

#[test]
fn a_guest_comes_back() {
    let (mut p, mut cx) = scene();
    cx.worktrees[0].is_local = false;
    p.client_state = guest();
    let message = RejoinedProject {
        worktree_ids: vec![10],
        collaborators: vec![info(1, 0)],
        language_servers: vec![ServerInfo { id: 8, name: "gopls".to_string() }],
    };
    let mut out = vec![];
    assert_eq!(p.rejoined(message, &vec![None], 9, &cx, &mut out), Ok(()));
    assert_eq!(p.join_project_response_message_id, 9);
    assert!(p.language_server_statuses.contains_key(&LanguageServerId(8)));
    assert_eq!(p.host().unwrap().peer_id, PeerId(1));
    assert!(out.contains(&Effect::ClearLocalSettings(EntityId(1))));
    assert!(out.contains(&Effect::QueueMessage(BufferOrderedMessage::Resync)));
}

#[test]
fn a_buffer_is_handed_to_a_peer() {
    let (mut p, cx) = scene();
    p.client_state = Some(ProjectClientState::Local { remote_id: 7 });
    let mut out = vec![];
    assert_eq!(p.create_buffer_for_peer(&cx.buffers[0], PeerId(2), &mut out), 5);
    assert_eq!(
        out,
        vec![Effect::QueueUpdate(LocalProjectUpdate::CreateBufferForPeer {
            peer_id: PeerId(2),
            buffer_id: 5,
        })]
    );
    let chunks = vec![Arc::new(vec![Operation(1)]), Arc::new(vec![Operation(2)])];
    let part = |part: BufferPart| Message::CreateBufferForPeer {
        project_id: 7,
        peer_id: PeerId(2),
        part,
    };
    let messages = buffer_messages(7, PeerId(2), EntityId(100), 5, &chunks);
    assert_eq!(
        messages,
        vec![
            part(BufferPart::State { buffer: EntityId(100) }),
            part(BufferPart::Chunk {
                buffer_id: 5,
                operations: chunks[0].clone(),
                is_last: false,
            }),
            part(BufferPart::Chunk { buffer_id: 5, operations: chunks[1].clone(), is_last: true }),
        ]
    );
}

#[test]
fn worktrees_are_announced() {
    let (p, cx) = scene();
    let (message, worktrees) = p.announce_worktrees(7, &cx);
    assert_eq!(
        message,
        Message::UpdateProject {
            project_id: 7,
            worktrees: vec![WorktreeMetadata {
                id: 10,
                root_name: "root".to_string(),
                visible: false,
                abs_path: path("/root"),
            }],
        }
    );
    let mut out = vec![];
    share_announced_worktrees(&worktrees, 7, false, &mut out);
    assert!(out.is_empty());
    share_announced_worktrees(&worktrees, 7, true, &mut out);
    assert_eq!(out, vec![Effect::ShareWorktree { worktree: EntityId(1), project_id: 7 }]);
}

#[test]
fn a_received_buffer_is_put_together() {
    let (mut p, cx) = scene();
    p.client_state = guest();
    let mut out = vec![];
    let state = |worktree: u64| {
        Some(ReceivedPart::State {
            buffer_id: 6,
            file_worktree: Some(worktree),
            buffer: EntityId(200),
        })
    };
    let chunk = |is_last: bool| {
        Some(ReceivedPart::Chunk { buffer_id: 6, operations: vec![Operation(1)], is_last })
    };
    assert_eq!(
        p.handle_create_buffer_for_peer(chunk(false), &cx, &mut out),
        Err(ProjectError::NoSuchBuffer(6))
    );
    assert_eq!(
        p.handle_create_buffer_for_peer(state(99), &cx, &mut out),
        Err(ProjectError::NoSuchWorktree)
    );
    assert_eq!(
        p.handle_create_buffer_for_peer(None, &cx, &mut out),
        Err(ProjectError::MissingVariant)
    );
    assert_eq!(p.handle_create_buffer_for_peer(state(10), &cx, &mut out), Ok(None));
    assert_eq!(p.handle_create_buffer_for_peer(chunk(false), &cx, &mut out), Ok(None));
    assert_eq!(
        p.handle_create_buffer_for_peer(chunk(true), &cx, &mut out),
        Ok(Some(EntityId(200)))
    );
    assert!(p.incomplete_remote_buffers.is_empty());
    assert_eq!(out.len(), 2);
}

#[test]
fn operations_wait_for_their_buffer() {
    let (mut p, _) = scene();
    p.client_state = guest();
    let mut out = vec![];
    p.handle_update_buffer(5, vec![Operation(1)], &mut out);
    assert!(out.is_empty());
    p.opened_buffers.insert(5, OpenBuffer::Strong(EntityId(100)));
    p.handle_update_buffer(5, vec![Operation(1)], &mut out);
    assert_eq!(
        out,
        vec![Effect::ApplyOperations { buffer: EntityId(100), operations: vec![Operation(1)] }]
    );
    p.handle_update_buffer(6, vec![Operation(2)], &mut out);
    p.handle_update_buffer(6, vec![Operation(3)], &mut out);
    assert_eq!(out.len(), 1);
    assert!(matches!(
        p.opened_buffers.get(&6),
        Some(OpenBuffer::Operations(ops)) if *ops == vec![Operation(2), Operation(3)]
    ));
}

#[test]
fn a_guest_waits_for_a_buffer() {
    let (mut p, cx) = scene();
    p.client_state = guest();
    assert_eq!(p.wait_for_remote_buffer(5, &cx), Ok(Some(EntityId(100))));
    assert_eq!(p.wait_for_remote_buffer(6, &cx), Ok(None));
    assert!(p.incomplete_remote_buffers.contains_key(&6));
    p.client_state =
        Some(ProjectClientState::Remote { sharing_has_stopped: true, remote_id: 7, replica_id: 3 });
    assert_eq!(p.wait_for_remote_buffer(6, &cx), Err(ProjectError::Disconnected));
}

#[test]
fn a_started_server_is_noted() {
    let (mut p, _) = scene();
    p.client_state = guest();
    let mut out = vec![];
    let server = ServerInfo { id: 8, name: "gopls".to_string() };
    assert_eq!(p.handle_start_language_server(Some(server), &mut out), Ok(()));
    assert_eq!(p.language_server_statuses.get(&LanguageServerId(8)).unwrap().name, "gopls");
    assert_eq!(out, vec![Effect::Notify]);
    assert_eq!(
        p.handle_start_language_server(None, &mut out),
        Err(ProjectError::MissingServer)
    );
}

#[test]
fn a_file_is_moved_by_the_host() {
    let (mut p, cx) = scene();
    p.client_state = guest();
    let told = || FileInfo {
        worktree_id: 10,
        entry_id: 2,
        path: path("b.rs"),
        mtime: 3,
        is_deleted: false,
    };
    let mut out = vec![];
    assert_eq!(p.handle_update_buffer_file(5, Some(told()), &cx, &mut out), Ok(()));
    assert!(out.contains(&Effect::UpdateBufferFile { buffer: EntityId(100), file: told() }));
    let elsewhere = FileInfo { worktree_id: 99, ..told() };
    assert_eq!(
        p.handle_update_buffer_file(5, Some(elsewhere), &cx, &mut out),
        Err(ProjectError::NoSuchWorktree)
    );
}

#[test]
fn messages_keep_their_order() {
    let mut sender = MessageSender::new();
    let operation = |buffer_id: u64, n: u64| BufferOrderedMessage::Operation {
        buffer_id,
        operation: Operation(n),
    };
    assert!(matches!(sender.take(operation(5, 1)), SendStep::Next));
    assert!(matches!(sender.take(operation(6, 2)), SendStep::Next));
    assert!(matches!(sender.take(operation(5, 3)), SendStep::Next));
    let update = BufferOrderedMessage::LanguageServerUpdate {
        language_server_id: LanguageServerId(7),
        message: ServerUpdate::DiskBasedDiagnosticsUpdated,
    };
    assert!(matches!(
        sender.take(update),
        SendStep::FlushThenSend {
            language_server_id: LanguageServerId(7),
            message: ServerUpdate::DiskBasedDiagnosticsUpdated,
        }
    ));
    assert_eq!(sender.next_batch(), Some((5, vec![Operation(1), Operation(3)])));
    sender.sent(true, false);
    assert_eq!(sender.next_batch(), Some((6, vec![Operation(2)])));
    assert_eq!(sender.next_batch(), None);
    assert_eq!(MAX_BATCH_SIZE, 128);
}

#[test]
fn a_failed_message_asks_for_a_resync() {
    let mut sender = MessageSender::new();
    let operation =
        || BufferOrderedMessage::Operation { buffer_id: 5, operation: Operation(1) };
    sender.sent(false, true);
    assert!(!sender.needs_resync_with_host);
    sender.sent(false, false);
    assert!(sender.needs_resync_with_host);
    assert!(matches!(sender.take(operation()), SendStep::Next));
    assert_eq!(sender.next_batch(), None);
    assert!(matches!(sender.take(BufferOrderedMessage::Resync), SendStep::Synchronize));
    sender.synchronized(true);
    assert!(!sender.needs_resync_with_host);
}

#[test]
fn batches_are_addressed() {
    let (mut p, _) = scene();
    assert_eq!(p.batch_message(5, vec![Operation(1)]), None);
    p.client_state = guest();
    assert_eq!(
        p.batch_message(5, vec![Operation(1)]),
        Some(Message::UpdateBuffer {
            project_id: 7,
            buffer_id: 5,
            operations: vec![Operation(1)],
        })
    );
    assert_eq!(
        p.server_update_message(
            LanguageServerId(7),
            ServerUpdate::DiskBasedDiagnosticsUpdating
        ),
        Some(Message::UpdateLanguageServer {
            project_id: 7,
            language_server_id: 7,
            update: ServerUpdate::DiskBasedDiagnosticsUpdating,
        })
    );
}

#[test]
fn buffers_are_synchronised() {
    let (mut p, cx) = scene();
    assert_eq!(p.synchronize_remote_buffers(&cx).err(), Some(ProjectError::NotAGuest));
    p.client_state = guest();
    p.incomplete_remote_buffers.insert(9, None);
    let request = p.synchronize_remote_buffers(&cx).unwrap();
    assert_eq!(request.project_id, 7);
    assert_eq!(request.buffers, vec![BufferVersion { id: 5, version: 1 }]);
    assert_eq!(request.incomplete_buffer_ids, vec![9]);
    let mut out = vec![];
    let known = vec![BufferVersion { id: 5, version: 4 }, BufferVersion { id: 6, version: 4 }];
    p.finish_synchronizing(7, &known, &vec![9], &cx, &mut out);
    assert_eq!(
        out,
        vec![
            Effect::SendMissingOperations {
                buffer: EntityId(100),
                project_id: 7,
                buffer_id: 5,
                since: 4,
            },
            Effect::RequestBuffer { project_id: 7, buffer_id: 9 },
        ]
    );
}

#[test]
fn the_host_brings_a_guest_in_step() {
    let (mut p, cx) = scene();
    p.client_state = Some(ProjectClientState::Local { remote_id: 7 });
    let seen = vec![BufferVersion { id: 5, version: 4 }, BufferVersion { id: 6, version: 4 }];
    let mut out = vec![];
    let known = p.handle_synchronize_buffers(Some(PeerId(2)), 7, &seen, &cx, &mut out);
    assert_eq!(known, vec![BufferVersion { id: 5, version: 1 }]);
    let shared = p.shared_buffers.get(&PeerId(2)).unwrap();
    assert!(shared.contains(&5));
    assert!(!shared.contains(&6));
    assert_eq!(
        out,
        vec![
            Effect::Send(Message::UpdateBufferFile {
                project_id: 7,
                buffer_id: 5,
                file: FileInfo {
                    worktree_id: 10,
                    entry_id: 2,
                    path: path("a.rs"),
                    mtime: 1,
                    is_deleted: false,
                },
            }),
            Effect::Send(Message::UpdateDiffBase { project_id: 7, buffer_id: 5, diff_base: None }),
            Effect::Send(Message::BufferReloaded {
                project_id: 7,
                buffer_id: 5,
                saved: cx.buffers[0].saved,
            }),
            Effect::SendMissingOperations {
                buffer: EntityId(100),
                project_id: 7,
                buffer_id: 5,
                since: 4,
            },
        ]
    );
    assert!(p.handle_synchronize_buffers(None, 7, &seen, &cx, &mut out).is_empty());
}

#[test]
fn the_host_saves_for_its_guests() {
    let (mut p, cx) = scene();
    assert_eq!(p.handle_save_buffer(5, &cx), Err(ProjectError::ProjectNotShared));
    p.client_state = Some(ProjectClientState::Local { remote_id: 7 });
    assert_eq!(p.handle_save_buffer(5, &cx), Ok((7, EntityId(100))));
    assert_eq!(p.handle_save_buffer(6, &cx), Err(ProjectError::NoSuchBuffer(6)));
    let named = p.buffers_named(&vec![5], &cx).unwrap();
    assert!(named.contains(&EntityId(100)));
    assert_eq!(p.buffers_named(&vec![5, 6], &cx).err(), Some(ProjectError::NoSuchBuffer(6)));
}

#[test]
fn a_transaction_survives_the_wire() {
    let (mut p, cx) = scene();
    p.client_state = Some(ProjectClientState::Local { remote_id: 7 });
    let mut transaction = ProjectTransaction(SortedMap::new());
    transaction.0.insert(EntityId(100), 77);
    let mut out = vec![];
    let message =
        p.serialize_project_transaction_for_peer(&transaction, PeerId(2), &cx, &mut out);
    assert_eq!(message.pairs(), vec![(5, 77)]);
    assert_eq!(out.len(), 1);
    let mut out = vec![];
    let back =
        p.deserialize_project_transaction(&message, &vec![EntityId(100)], true, &mut out);
    assert_eq!(back.0.get(&EntityId(100)), Some(&77));
    assert_eq!(back.0.len(), 1);
    assert_eq!(
        out,
        vec![Effect::AwaitTransaction {
            buffer: EntityId(100),
            transaction: 77,
            push_to_history: true,
        }]
    );
}

#[test]
fn the_later_transaction_of_a_buffer_counts() {
    let message =
        TransactionMessage { buffer_ids: vec![5, 6, 5, 8], transactions: vec![70, 71, 72] };
    assert_eq!(message.pairs(), vec![(5, 70), (6, 71), (5, 72)]);
    let mut out = vec![];
    let read = project().deserialize_project_transaction(
        &message,
        &vec![EntityId(101), EntityId(100), EntityId(101)],
        false,
        &mut out,
    );
    assert_eq!(read.0.len(), 2);
    assert_eq!(read.0.get(&EntityId(100)), Some(&71));
    assert_eq!(read.0.get(&EntityId(101)), Some(&72));
    assert_eq!(out.len(), 2);
    assert_eq!(
        out[1],
        Effect::AwaitTransaction {
            buffer: EntityId(101),
            transaction: 72,
            push_to_history: false,
        }
    );
}

#[test]
fn a_guest_is_sent_the_buffer_it_asks_for() {
    let (mut p, cx) = scene();
    p.client_state = Some(ProjectClientState::Local { remote_id: 7 });
    let mut out = vec![];
    assert_eq!(
        p.handle_open_buffer_by_id(5, PeerId(2), &cx, &mut out),
        Ok(OpenReply::Opened { buffer_id: 5 })
    );
    assert_eq!(
        out,
        vec![Effect::QueueUpdate(LocalProjectUpdate::CreateBufferForPeer {
            peer_id: PeerId(2),
            buffer_id: 5,
        })]
    );
    assert_eq!(
        p.handle_open_buffer_by_id(6, PeerId(2), &cx, &mut out),
        Err(ProjectError::NoSuchBuffer(6))
    );
    p.client_state = guest();
    assert_eq!(
        p.handle_open_buffer_by_id(6, PeerId(2), &cx, &mut out),
        Ok(OpenReply::RequestFromHost { project_id: 7, id: 6 })
    );
    assert_eq!(out.len(), 1);
}

#[test]
fn a_guest_asks_for_a_path() {
    let (mut p, cx) = scene();
    p.client_state = Some(ProjectClientState::Local { remote_id: 7 });
    assert!(matches!(
        p.handle_open_buffer_by_path(10, path("a.rs"), &cx),
        Ok(OpenAction::Ready(EntityId(100)))
    ));
    assert!(matches!(
        p.handle_open_buffer_by_path(10, path("b.rs"), &cx),
        Ok(OpenAction::LoadLocal { worktree: EntityId(1), .. })
    ));
    assert_eq!(
        p.handle_open_buffer_by_path(11, path("b.rs"), &cx).err(),
        Some(ProjectError::NoSuchWorktree)
    );
}

#[test]
fn guests_that_cannot_be_told_are_an_error() {
    let (mut p, cx) = scene();
    let mut out = vec![];
    p.client_state = Some(ProjectClientState::Local { remote_id: 7 });
    assert_eq!(p.unshare(false, &cx, &mut out), Err(ProjectError::Disconnected));
    assert!(!p.is_shared());
    assert!(!out.contains(&Effect::Notify));
    assert!(!out.contains(&Effect::Send(Message::UnshareProject { project_id: 7 })));
}

#[test]
fn a_guest_cannot_share_the_project() {
    let (mut p, cx) = scene();
    let mut out = vec![];
    p.client_state = guest();
    p.opened_buffers.insert(9, OpenBuffer::Operations(vec![Operation(1)]));
    assert_eq!(p.shared(8, true, &cx, &mut out), Err(ProjectError::AlreadyShared));
    assert_eq!(p.client_state, guest());
    assert!(out.is_empty());
}
