#![allow(dead_code)]

use project2::buffer_events::{BufferEvent, DISK_BASED_DIAGNOSTICS_DEBOUNCE};
use project2::effects::{
    BufferOrderedMessage, DocumentChange, Effect, Event, Message, Operation, ServerNotification,
    ServerUpdate,
};
use project2::lifecycle::StoppedState;
use project2::model::{ProjectPath, SaveOptions, SyncKind};
use project2::progress::{ProgressToken, WorkDoneProgress};
use project2::project::{OpenBuffer, ProjectClientState, ProjectError, WorktreeHandle};
use project2::servers::{
    check_errored_server, initialization_options, record_failed_start, InitializationOptions,
    TestBinaryOutcome,
};
use project2::ids::{
    EntityId, LanguageServerId, LanguageServerName, ProjectEntryId, WorktreeId,
};
use project2::map::SortedMap;
use project2::model::{
    AppContext, Buffer, Entry, File, FormatOnSave, Formatter, Language, LanguageServer,
    LanguageSettings, LineEnding, LspAdapter, SavedState, TextDocumentSync, TextSnapshot, Worktree,
};
use project2::path::{Component, Path};
use project2::project::{LanguageServerState, Project};
use std::sync::Arc;

fn path(text: &str) -> Path {
    let mut components = Vec::new();
    if text.starts_with('/') {
        components.push(Component::RootDir);
    }
    for part in text.split('/') {
        match part {
            "" => {}
            "." => components.push(Component::CurDir),
            ".." => components.push(Component::ParentDir),
            name => components.push(Component::Normal(name.to_string())),
        }
    }
    Path::from_components(components)
}

fn settings(enable_language_server: bool) -> Arc<LanguageSettings> {
    Arc::new(LanguageSettings {
        enable_language_server,
        formatter: Formatter::Auto,
        format_on_save: FormatOnSave::On,
        remove_trailing_whitespace_on_save: true,
        ensure_final_newline_on_save: true,
        tab_size: 4,
    })
}

fn adapter(name: &str) -> LspAdapter {
    LspAdapter {
        name: LanguageServerName(name.to_string()),
        disk_based_diagnostics_progress_token: None,
        disk_based_diagnostic_sources: vec![],
        language_ids: vec![("Rust".to_string(), "rust".to_string())],
        initialization_options: None,
        prettier_plugins: vec![],
        can_be_reinstalled: true,
        reinstall_attempt_count: 0,
    }
}

fn language(id: u64, name: &str, adapters: Vec<LspAdapter>) -> Arc<Language> {
    Arc::new(Language {
        id,
        name: name.to_string(),
        prettier_parser_name: None,
        lsp_adapters: adapters.into_iter().map(Arc::new).collect(),
    })
}

fn server(id: usize, sync: Option<TextDocumentSync>) -> LanguageServer {
    LanguageServer {
        server_id: LanguageServerId(id),
        name: format!("server {}", id),
        root_path: path("/root"),
        text_document_sync: sync,
        has_completion_provider: true,
        can_resolve_completions: false,
        completion_trigger_characters: None,
        document_formatting_provider: None,
        document_range_formatting_provider: None,
        inlay_hints_can_be_resolved: false,
    }
}

fn running(language: &Arc<Language>, server: LanguageServer) -> LanguageServerState {
    LanguageServerState::Running {
        language: language.clone(),
        adapter: language.lsp_adapters[0].clone(),
        server: Arc::new(server),
        watched_paths: SortedMap::new(),
        simulate_disk_based_diagnostics_completion: false,
    }
}

fn entry(id: usize, name: &str, is_file: bool) -> Entry {
    Entry { id: ProjectEntryId(id), path: path(name), mtime: 1, is_file, is_ignored: false }
}

fn worktree(entity: u64, id: usize, root: &str, entries: Vec<Entry>) -> Worktree {
    Worktree {
        entity_id: EntityId(entity),
        id: WorktreeId(id),
        is_local: true,
        is_visible: true,
        root_name: path(root).file_name().unwrap_or("".to_string()),
        abs_path: path(root),
        entries,
        diagnostic_summaries: vec![],
        local_settings: vec![],
    }
}

fn file(tree: &Worktree, name: &str, entry_id: usize) -> File {
    File {
        worktree: tree.entity_id,
        worktree_id: tree.id,
        path: path(name),
        abs_path: tree.abs_path.join(&path(name)),
        entry_id: ProjectEntryId(entry_id),
        mtime: 1,
        is_local: tree.is_local,
        is_deleted: false,
    }
}

fn buffer(
    entity: u64,
    remote_id: u64,
    file: Option<File>,
    language: Option<&Arc<Language>>,
    text: &str,
) -> Buffer {
    Buffer {
        entity_id: EntityId(entity),
        remote_id,
        file,
        language: language.cloned(),
        is_plain_text: false,
        contains_unknown_injections: false,
        is_dirty: false,
        snapshot: TextSnapshot { version: 1, text: Arc::new(text.to_string()) },
        saved: SavedState {
            version: 1,
            fingerprint: 0,
            line_ending: LineEnding::Unix,
            mtime: 1,
        },
        diff_base: None,
        settings: settings(true),
    }
}

fn context(buffers: Vec<Buffer>, worktrees: Vec<Worktree>) -> AppContext {
    AppContext { buffers, worktrees, language_settings: vec![], default_settings: settings(true) }
}

fn project() -> Project {
    Project::local_with_nonce(42, SortedMap::new(), false)
}

struct Scene {
    project: Project,
    language: Arc<Language>,
    tree: Worktree,
}

/// A project whose worktree has the server 7 running for Rust.
fn scene(sync: Option<TextDocumentSync>) -> Scene {
    let language = language(1, "Rust", vec![adapter("rust-analyzer")]);
    let tree = worktree(1, 10, "/root", vec![entry(2, "a.rs", true)]);
    let mut project = project();
    let mut out = vec![];
    project.add_worktree(&tree, &mut out);
    project.start_language_server(
        WorktreeId(10),
        &path("/root"),
        &language.lsp_adapters[0],
        &language,
        Some(LanguageServerId(7)),
        &mut out,
    );
    let cx = context(vec![], vec![]);
    let entered = project.insert_newly_running_language_server(
        language.clone(),
        language.lsp_adapters[0].clone(),
        Arc::new(server(7, sync)),
        LanguageServerId(7),
        (WorktreeId(10), LanguageServerName("rust-analyzer".to_string())),
        true,
        true,
        &cx,
        &mut out,
    );
    assert_eq!(entered, Ok(true));
    Scene { project, language, tree }
}

fn full() -> Option<TextDocumentSync> {
    Some(TextDocumentSync::Kind(SyncKind::Full))
}

impl Scene {
    fn buffer(&self, text: &str) -> Buffer {
        buffer(100, 5, Some(file(&self.tree, "a.rs", 2)), Some(&self.language), text)
    }

    fn open(&mut self, out: &mut Vec<Effect>) {
        let b = self.buffer("fn a() {}");
        self.project.opened_buffers.insert(5, OpenBuffer::Strong(EntityId(100)));
        self.project.register_buffer_with_language_servers(&b, out);
    }
}

fn name() -> LanguageServerName {
    LanguageServerName("rust-analyzer".to_string())
}

#[test]
fn a_server_starts_once() {
    let language = language(1, "Rust", vec![adapter("rust-analyzer")]);
    let a = language.lsp_adapters[0].clone();
    let mut p = project();
    let mut out = vec![];
    assert!(p.can_start_language_server(WorktreeId(10), &a));
    p.start_language_server(
        WorktreeId(10),
        &path("/root"),
        &a,
        &language,
        Some(LanguageServerId(7)),
        &mut out,
    );
    assert_eq!(
        out,
        vec![Effect::StartServer {
            server_id: LanguageServerId(7),
            worktree_id: WorktreeId(10),
            root_path: path("/root"),
            language: 1,
        }]
    );
    assert!(!p.can_start_language_server(WorktreeId(10), &a));
    assert!(matches!(
        p.language_servers.get(&LanguageServerId(7)),
        Some(LanguageServerState::Starting)
    ));
    p.start_language_server(
        WorktreeId(10),
        &path("/root"),
        &a,
        &language,
        Some(LanguageServerId(8)),
        &mut out,
    );
    assert_eq!(out.len(), 1);
    assert_eq!(
        p.language_server_ids.get(&(WorktreeId(10), name())),
        Some(&LanguageServerId(7))
    );
}

#[test]
fn servers_can_be_switched_off() {
    let language = language(1, "Rust", vec![adapter("rust-analyzer")]);
    let tree = worktree(1, 10, "/root", vec![entry(1, "", true)]);
    let mut p = project();
    let mut cx = context(vec![], vec![]);
    let mut out = vec![];
    cx.default_settings = settings(false);
    let pending = vec![Some(LanguageServerId(7))];
    p.start_language_servers(&tree, &path("/root"), &language, &pending, &cx, &mut out);
    assert!(out.is_empty());
    cx.default_settings = settings(true);
    p.start_language_servers(&tree, &path("/root"), &language, &pending, &cx, &mut out);
    assert_eq!(out.len(), 1);
}

#[test]
fn a_failing_server_is_reinstalled_four_times() {
    let mut a = adapter("rust-analyzer");
    let (first, second) = (project(), project());
    for _ in 0..4 {
        assert!(record_failed_start(&mut a.reinstall_attempt_count, true));
    }
    assert!(first.can_start_language_server(WorktreeId(10), &a));
    assert!(!record_failed_start(&mut a.reinstall_attempt_count, true));
    // All projects that use the adapter give up.
    assert!(!first.can_start_language_server(WorktreeId(10), &a));
    assert!(!second.can_start_language_server(WorktreeId(10), &a));
    let mut other = adapter("gopls");
    assert!(!record_failed_start(&mut other.reinstall_attempt_count, false));
    assert_eq!(other.reinstall_attempt_count, 0);
    assert!(first.can_start_language_server(WorktreeId(10), &other));
}

#[test]
fn a_test_binary_decides_on_reinstalling() {
    let mut a = adapter("rust-analyzer");
    assert!(check_errored_server(&a, TestBinaryOutcome::NotLaunched));
    assert!(check_errored_server(&a, TestBinaryOutcome::Exited { success: false }));
    assert!(check_errored_server(&a, TestBinaryOutcome::StatusUnknown));
    assert!(!check_errored_server(&a, TestBinaryOutcome::Exited { success: true }));
    assert!(!check_errored_server(&a, TestBinaryOutcome::TimedOut));
    a.can_be_reinstalled = false;
    assert!(!check_errored_server(&a, TestBinaryOutcome::NotLaunched));
}

#[test]
fn initialization_options_are_overridden() {
    let mut a = adapter("rust-analyzer");
    let own = "{\"a\":1}".to_string();
    let overriding = "{\"b\":2}".to_string();
    assert!(matches!(
        initialization_options(&a, Some(overriding.clone())),
        InitializationOptions::Use(Some(o)) if o == overriding
    ));
    a.initialization_options = Some(own.clone());
    assert!(matches!(
        initialization_options(&a, Some(overriding.clone())),
        InitializationOptions::Merge { options, overriding: o } if options == own && o == overriding
    ));
    assert!(matches!(
        initialization_options(&a, None),
        InitializationOptions::Use(Some(o)) if o == own
    ));
}

#[test]
fn a_running_server_is_known() {
    let s = scene(full());
    let b = s.buffer("");
    assert_eq!(s.project.language_server_ids_for_buffer(&b), vec![LanguageServerId(7)]);
    assert_eq!(
        s.project.primary_language_server_for_buffer(&b).unwrap().1.server_id,
        LanguageServerId(7)
    );
    assert!(s.project.language_server_for_buffer(&b, LanguageServerId(8)).is_none());
    assert_eq!(
        s.project.language_servers(),
        vec![(LanguageServerId(7), name(), WorktreeId(10))]
    );
    assert_eq!(
        s.project.language_server_for_id(LanguageServerId(7)).unwrap().server_id,
        LanguageServerId(7)
    );
    assert_eq!(s.project.language_servers_for_worktree(WorktreeId(10)).len(), 1);
    assert_eq!(s.project.language_servers_for_worktree(WorktreeId(11)).len(), 0);
}

#[test]
fn a_server_that_was_replaced_is_not_entered() {
    let mut s = scene(full());
    let mut out = vec![];
    let cx = context(vec![], vec![]);
    let entered = s.project.insert_newly_running_language_server(
        s.language.clone(),
        s.language.lsp_adapters[0].clone(),
        Arc::new(server(9, full())),
        LanguageServerId(9),
        (WorktreeId(10), name()),
        true,
        true,
        &cx,
        &mut out,
    );
    assert_eq!(entered, Ok(false));
    assert!(out.is_empty());
}

#[test]
fn a_server_that_nobody_hears_of_is_not_told_of_buffers() {
    let mut s = scene(full());
    let mut out = vec![];
    s.open(&mut out);
    s.project.buffer_snapshots.clear();
    let b = s.buffer("fn a() {}");
    let cx = context(vec![b], vec![]);
    s.project.client_state = Some(ProjectClientState::Local { remote_id: 3 });
    let enter = |p: &mut Project, connected: bool, reachable: bool, out: &mut Vec<Effect>| {
        p.insert_newly_running_language_server(
            s.language.clone(),
            s.language.lsp_adapters[0].clone(),
            Arc::new(server(7, full())),
            LanguageServerId(7),
            (WorktreeId(10), name()),
            connected,
            reachable,
            &cx,
            out,
        )
    };
    out.clear();
    assert_eq!(enter(&mut s.project, false, true, &mut out), Err(ProjectError::Disconnected));
    assert_eq!(out, vec![Effect::Emit(Event::LanguageServerAdded(LanguageServerId(7)))]);
    assert!(s.project.buffer_snapshots.is_empty());
    out.clear();
    let deaf = enter(&mut s.project, true, false, &mut out);
    assert_eq!(deaf, Err(ProjectError::ServerUnreachable));
    assert_eq!(out.len(), 2);
    assert!(s.project.buffer_snapshots.get(&5).is_some());
    out.clear();
    assert_eq!(enter(&mut s.project, true, true, &mut out), Ok(true));
    assert!(matches!(out[1], Effect::Send(Message::StartLanguageServer { project_id: 3, .. })));
    assert!(out.len() > 3);
}

#[test]
fn an_opened_buffer_is_registered() {
    let mut s = scene(full());
    let mut out = vec![];
    s.open(&mut out);
    assert!(out.contains(&Effect::NotifyServer(
        LanguageServerId(7),
        ServerNotification::DidOpen {
            document: path("/root/a.rs"),
            language_id: Some("rust".to_string()),
            version: 0,
            text: Arc::new("fn a() {}".to_string()),
        },
    )));
    let known = s.project.buffer_snapshots.get(&5).unwrap();
    let texts = known.get(&LanguageServerId(7)).unwrap();
    assert_eq!(texts.len(), 1);
    assert_eq!(texts[0].version, 0);
}

#[test]
fn an_edit_makes_the_next_version() {
    let mut s = scene(full());
    let mut out = vec![];
    s.open(&mut out);
    out.clear();
    let mut b = s.buffer("fn b() {}");
    b.snapshot.version = 2;
    s.project.on_buffer_event(&b, BufferEvent::Edited, Some(10), &mut out);
    assert_eq!(
        out,
        vec![
            Effect::DebounceDiffRecalculation { delay: 50 },
            Effect::NotifyServer(
                LanguageServerId(7),
                ServerNotification::DidChange {
                    document: path("/root/a.rs"),
                    version: 1,
                    change: DocumentChange::Full(Arc::new("fn b() {}".to_string())),
                },
            ),
        ]
    );
    let texts = s.project.buffer_snapshots.get(&5).unwrap().get(&LanguageServerId(7)).unwrap();
    assert_eq!(texts.iter().map(|t| t.version).collect::<Vec<_>>(), vec![0, 1]);
}

#[test]
fn an_incremental_server_gets_the_edits() {
    let mut s = scene(Some(TextDocumentSync::Options {
        change: Some(SyncKind::Incremental),
        save: None,
    }));
    let mut out = vec![];
    s.open(&mut out);
    out.clear();
    let b = s.buffer("fn b() {}");
    s.project.on_buffer_event(&b, BufferEvent::Edited, None, &mut out);
    assert_eq!(out[0], Effect::DeferDiffRecalculation);
    assert_eq!(
        out[1],
        Effect::NotifyServer(
            LanguageServerId(7),
            ServerNotification::DidChange {
                document: path("/root/a.rs"),
                version: 1,
                change: DocumentChange::EditsSince(1),
            },
        )
    );
}

#[test]
fn a_server_without_synchronisation_hears_nothing() {
    let mut s = scene(None);
    let mut out = vec![];
    s.open(&mut out);
    out.clear();
    let b = s.buffer("fn b() {}");
    s.project.on_buffer_event(&b, BufferEvent::Edited, Some(80), &mut out);
    assert_eq!(out, vec![Effect::DebounceDiffRecalculation { delay: 80 }]);
}

#[test]
fn operations_are_queued() {
    let mut s = scene(full());
    let mut out = vec![];
    let b = s.buffer("");
    s.project.on_buffer_event(&b, BufferEvent::Operation(Operation(3)), None, &mut out);
    assert_eq!(
        out,
        vec![Effect::QueueMessage(BufferOrderedMessage::Operation {
            buffer_id: 5,
            operation: Operation(3),
        })]
    );
}

#[test]
fn a_saved_buffer_starts_the_timer() {
    let mut s = scene(Some(TextDocumentSync::Options {
        change: None,
        save: Some(SaveOptions::Options { include_text: Some(true) }),
    }));
    let mut out = vec![];
    let b = s.buffer("saved");
    s.project.on_buffer_event(&b, BufferEvent::Saved, None, &mut out);
    assert_eq!(
        out,
        vec![
            Effect::NotifyServer(
                LanguageServerId(7),
                ServerNotification::DidSave {
                    document: path("/root/a.rs"),
                    text: Some(Arc::new("saved".to_string())),
                },
            ),
            Effect::StartDiagnosticsTimer {
                server_id: LanguageServerId(7),
                delay: DISK_BASED_DIAGNOSTICS_DEBOUNCE,
            },
        ]
    );
    assert_eq!(DISK_BASED_DIAGNOSTICS_DEBOUNCE, 1000);
    out.clear();
    s.project.diagnostics_timer_fired(LanguageServerId(7), &mut out);
    assert_eq!(
        out,
        vec![
            Effect::Emit(Event::DiskBasedDiagnosticsFinished {
                language_server_id: LanguageServerId(7),
            }),
            Effect::QueueMessage(BufferOrderedMessage::LanguageServerUpdate {
                language_server_id: LanguageServerId(7),
                message: ServerUpdate::DiskBasedDiagnosticsUpdated,
            }),
        ]
    );
}

#[test]
fn a_new_file_handle_is_entered() {
    let mut s = scene(full());
    let mut out = vec![];
    let b = s.buffer("");
    s.project.on_buffer_event(&b, BufferEvent::FileHandleChanged, None, &mut out);
    assert!(out.is_empty());
    assert_eq!(s.project.local_buffer_ids_by_entry_id.get(&ProjectEntryId(2)), Some(&5));
    let at = ProjectPath { worktree_id: WorktreeId(10), path: path("a.rs") };
    assert_eq!(s.project.local_buffer_ids_by_path.get(&at), Some(&5));
}

#[test]
fn diffs_are_recalculated_until_none_is_left() {
    let mut s = scene(full());
    let mut out = vec![];
    let cx = context(vec![s.buffer("")], vec![]);
    s.project.request_buffer_diff_recalculation(EntityId(100), None, &mut out);
    s.project.request_buffer_diff_recalculation(EntityId(101), None, &mut out);
    assert_eq!(out, vec![Effect::DeferDiffRecalculation]);
    let buffers = s.project.recalculate_buffer_diffs();
    assert_eq!(buffers, vec![EntityId(100), EntityId(101)]);
    assert!(s.project.buffers_needing_diff.is_empty());
    out.clear();
    s.project.after_diffs_recalculated(&buffers, &cx, &mut out);
    assert_eq!(out, vec![Effect::NotifyBuffer(EntityId(100))]);
    s.project.buffers_needing_diff.insert(EntityId(100));
    out.clear();
    s.project.after_diffs_recalculated(&buffers, &cx, &mut out);
    assert_eq!(out, vec![Effect::DeferDiffRecalculation]);
}

#[test]
fn an_unregistered_buffer_is_closed() {
    let mut s = scene(full());
    let mut out = vec![];
    s.open(&mut out);
    out.clear();
    let b = s.buffer("");
    let old = b.file.clone().unwrap();
    s.project.unregister_buffer_from_language_servers(&b, &old, &mut out);
    assert!(s.project.buffer_snapshots.get(&5).is_none());
    assert!(out.contains(&Effect::NotifyServer(
        LanguageServerId(7),
        ServerNotification::DidClose { document: path("/root/a.rs") },
    )));
}

#[test]
fn a_stopped_server_is_gone() {
    let mut s = scene(full());
    let mut out = vec![];
    s.open(&mut out);
    out.clear();
    let cx = context(vec![s.buffer("")], vec![]);
    let stopped =
        s.project.stop_language_server(WorktreeId(10), name(), &cx, &mut out).unwrap();
    assert_eq!(stopped.server_id, LanguageServerId(7));
    assert!(matches!(&stopped.state, StoppedState::Running(r) if r.server_id.0 == 7));
    assert_eq!(stopped.orphaned_worktrees, vec![WorktreeId(10)]);
    assert!(s.project.language_server_ids.is_empty());
    assert!(s.project.language_servers.is_empty());
    assert!(s.project.language_server_statuses.is_empty());
    out.clear();
    s.project.finish_stopping(LanguageServerId(7), &mut out);
    assert!(s.project.language_server_statuses.is_empty());
    let again = s.project.stop_language_server(WorktreeId(10), name(), &cx, &mut out);
    assert!(again.is_none());
}

#[test]
fn a_restarted_server_stops_first() {
    let mut s = scene(full());
    let mut out = vec![];
    let cx = context(vec![], vec![]);
    let stopped = s.project.restart_language_servers(WorktreeId(10), &s.language, &cx, &mut out);
    assert_eq!(stopped.len(), 1);
    out.clear();
    s.project.finish_restarting(
        &s.tree,
        &s.language,
        Some(path("/root")),
        &vec![WorktreeId(10)],
        &vec![Some(LanguageServerId(12))],
        &cx,
        &mut out,
    );
    assert_eq!(
        out,
        vec![Effect::StartServer {
            server_id: LanguageServerId(12),
            worktree_id: WorktreeId(10),
            root_path: path("/root"),
            language: 1,
        }]
    );
}

#[test]
fn work_is_followed_to_its_end() {
    let mut s = scene(full());
    let id = LanguageServerId(7);
    let mut out = vec![];
    let token = || ProgressToken::Text("work".to_string());
    let begin = || WorkDoneProgress::Begin { message: Some("m".to_string()), percentage: Some(5) };
    s.project.on_lsp_progress(token(), begin(), id, &None, 1, &mut out);
    assert!(out.is_empty());
    s.project.on_lsp_create_progress_token(id, token());
    s.project.on_lsp_progress(token(), begin(), id, &None, 1, &mut out);
    let status = s.project.language_server_statuses.get(&id).unwrap();
    let work = status.pending_work.get(&"work".to_string()).unwrap();
    assert_eq!(work.percentage, Some(5));
    assert_eq!(work.last_update_at, 1);
    let report = WorkDoneProgress::Report { message: None, percentage: Some(50) };
    s.project.on_lsp_progress(token(), report, id, &None, 2, &mut out);
    let status = s.project.language_server_statuses.get(&id).unwrap();
    let work = status.pending_work.get(&"work".to_string()).unwrap();
    assert_eq!(work.message, Some("m".to_string()));
    assert_eq!(work.percentage, Some(50));
    s.project.on_lsp_progress(token(), WorkDoneProgress::End, id, &None, 3, &mut out);
    let status = s.project.language_server_statuses.get(&id).unwrap();
    assert!(status.pending_work.is_empty());
    assert!(!status.progress_tokens.contains(&"work".to_string()));
}

#[test]
fn disk_based_diagnostics_are_announced() {
    let mut s = scene(full());
    let id = LanguageServerId(7);
    let disk = Some("check".to_string());
    let token = || ProgressToken::Text("check/1".to_string());
    let mut out = vec![];
    s.project.on_lsp_create_progress_token(id, token());
    let begin = WorkDoneProgress::Begin { message: None, percentage: None };
    s.project.on_lsp_progress(token(), begin, id, &disk, 1, &mut out);
    assert_eq!(
        s.project.language_servers_running_disk_based_diagnostics(),
        vec![LanguageServerId(7)]
    );
    assert_eq!(
        out[0],
        Effect::Emit(Event::DiskBasedDiagnosticsStarted { language_server_id: id })
    );
    out.clear();
    s.project.on_lsp_progress(token(), WorkDoneProgress::End, id, &disk, 1, &mut out);
    assert!(s.project.language_servers_running_disk_based_diagnostics().is_empty());
    assert_eq!(
        out[0],
        Effect::Emit(Event::DiskBasedDiagnosticsFinished { language_server_id: id })
    );
}

#[test]
fn numbered_tokens_are_skipped() {
    let mut s = scene(full());
    let id = LanguageServerId(7);
    let mut out = vec![];
    s.project.on_lsp_create_progress_token(id, ProgressToken::Number(3));
    let status = s.project.language_server_statuses.get(&id).unwrap();
    assert!(status.progress_tokens.is_empty());
    let begin = WorkDoneProgress::Begin { message: None, percentage: None };
    s.project.on_lsp_progress(ProgressToken::Number(3), begin, id, &None, 1, &mut out);
    assert!(out.is_empty());
}

#[test]
fn a_host_tells_of_its_servers() {
    let mut s = scene(full());
    let mut out = vec![];
    let start = ServerUpdate::WorkStart {
        token: "t".to_string(),
        message: None,
        percentage: Some(10),
    };
    assert_eq!(s.project.handle_update_language_server(7, Some(start), 4, &mut out), Ok(()));
    let status = s.project.language_server_statuses.get(&LanguageServerId(7)).unwrap();
    assert_eq!(status.pending_work.get(&"t".to_string()).unwrap().percentage, Some(10));
    assert_eq!(
        s.project.handle_update_language_server(7, None, 4, &mut out),
        Err(ProjectError::MissingVariant)
    );
}

#[test]
fn a_failed_server_is_taken_out_for_reinstalling() {
    let mut s = scene(full());
    let cx = context(vec![], vec![]);
    let a = s.language.lsp_adapters[0].clone();
    let taken = s.project.reinstall_language_server(&a, LanguageServerId(7), &cx);
    assert_eq!(taken.map(|t| t.server_id), Some(LanguageServerId(7)));
    assert!(s.project.language_servers.is_empty());
    let none = s.project.reinstall_language_server(&a, LanguageServerId(7), &cx);
    assert!(none.is_none());
    assert_eq!(s.project.worktrees, vec![WorktreeHandle::Strong(EntityId(1))]);
}
