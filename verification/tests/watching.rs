#![allow(dead_code)]

use project2::diagnostics::{
    DiagnosticSeverity, LspDiagnostic, PublishDiagnosticsParams, TextRange,
};
use project2::effects::{
    Effect, FileChangeType, FileEvent, PathChange, ServerNotification, UpdatedEntry,
};
use project2::model::{PointUtf16, SyncKind};
use project2::project::{LspBufferSnapshot, OpenBuffer, ProjectError};
use project2::watch::{registers_watched_files, GlobPattern, WATCHED_FILES_METHOD};
use project2::ids::{
    EntityId, LanguageServerId, LanguageServerName, ProjectEntryId, WorktreeId,
};
use project2::map::SortedMap;
use project2::model::{
    AppContext, Buffer, Entry, File, FormatOnSave, Formatter, Language, LanguageServer,
    LanguageSettings, LineEnding, LspAdapter, SavedState, TextDocumentSync, TextSnapshot, Worktree,
};
use project2::path::{Component, Path};
use project2::project::{LanguageServerState, Project};
use std::sync::Arc;

fn path(text: &str) -> Path {
    let mut components = Vec::new();
    if text.starts_with('/') {
        components.push(Component::RootDir);
    }
    for part in text.split('/') {
        match part {
            "" => {}
            "." => components.push(Component::CurDir),
            ".." => components.push(Component::ParentDir),
            name => components.push(Component::Normal(name.to_string())),
        }
    }
    Path::from_components(components)
}

fn settings(enable_language_server: bool) -> Arc<LanguageSettings> {
    Arc::new(LanguageSettings {
        enable_language_server,
        formatter: Formatter::Auto,
        format_on_save: FormatOnSave::On,
        remove_trailing_whitespace_on_save: true,
        ensure_final_newline_on_save: true,
        tab_size: 4,
    })
}

fn adapter(name: &str) -> LspAdapter {
    LspAdapter {
        name: LanguageServerName(name.to_string()),
        disk_based_diagnostics_progress_token: None,
        disk_based_diagnostic_sources: vec![],
        language_ids: vec![("Rust".to_string(), "rust".to_string())],
        initialization_options: None,
        prettier_plugins: vec![],
        can_be_reinstalled: true,
        reinstall_attempt_count: 0,
    }
}

fn language(id: u64, name: &str, adapters: Vec<LspAdapter>) -> Arc<Language> {
    Arc::new(Language {
        id,
        name: name.to_string(),
        prettier_parser_name: None,
        lsp_adapters: adapters.into_iter().map(Arc::new).collect(),
    })
}

fn server(id: usize, sync: Option<TextDocumentSync>) -> LanguageServer {
    LanguageServer {
        server_id: LanguageServerId(id),
        name: format!("server {}", id),
        root_path: path("/root"),
        text_document_sync: sync,
        has_completion_provider: true,
        can_resolve_completions: false,
        completion_trigger_characters: None,
        document_formatting_provider: None,
        document_range_formatting_provider: None,
        inlay_hints_can_be_resolved: false,
    }
}

fn running(language: &Arc<Language>, server: LanguageServer) -> LanguageServerState {
    LanguageServerState::Running {
        language: language.clone(),
        adapter: language.lsp_adapters[0].clone(),
        server: Arc::new(server),
        watched_paths: SortedMap::new(),
        simulate_disk_based_diagnostics_completion: false,
    }
}

fn entry(id: usize, name: &str, is_file: bool) -> Entry {
    Entry { id: ProjectEntryId(id), path: path(name), mtime: 1, is_file, is_ignored: false }
}

fn worktree(entity: u64, id: usize, root: &str, entries: Vec<Entry>) -> Worktree {
    Worktree {
        entity_id: EntityId(entity),
        id: WorktreeId(id),
        is_local: true,
        is_visible: true,
        root_name: path(root).file_name().unwrap_or("".to_string()),
        abs_path: path(root),
        entries,
        diagnostic_summaries: vec![],
        local_settings: vec![],
    }
}

fn file(tree: &Worktree, name: &str, entry_id: usize) -> File {
    File {
        worktree: tree.entity_id,
        worktree_id: tree.id,
        path: path(name),
        abs_path: tree.abs_path.join(&path(name)),
        entry_id: ProjectEntryId(entry_id),
        mtime: 1,
        is_local: tree.is_local,
        is_deleted: false,
    }
}

fn buffer(
    entity: u64,
    remote_id: u64,
    file: Option<File>,
    language: Option<&Arc<Language>>,
    text: &str,
) -> Buffer {
    Buffer {
        entity_id: EntityId(entity),
        remote_id,
        file,
        language: language.cloned(),
        is_plain_text: false,
        contains_unknown_injections: false,
        is_dirty: false,
        snapshot: TextSnapshot { version: 1, text: Arc::new(text.to_string()) },
        saved: SavedState {
            version: 1,
            fingerprint: 0,
            line_ending: LineEnding::Unix,
            mtime: 1,
        },
        diff_base: None,
        settings: settings(true),
    }
}

fn context(buffers: Vec<Buffer>, worktrees: Vec<Worktree>) -> AppContext {
    AppContext { buffers, worktrees, language_settings: vec![], default_settings: settings(true) }
}

fn project() -> Project {
    Project::local_with_nonce(42, SortedMap::new(), false)
}

fn name() -> LanguageServerName {
    LanguageServerName("rust-analyzer".to_string())
}

struct Scene {
    project: Project,
    cx: AppContext,
    language: Arc<Language>,
}

/// A project whose worktree has the server 7 running for Rust, and one open buffer.
fn scene() -> Scene {
    let language = language(1, "Rust", vec![adapter("rust-analyzer")]);
    let tree = worktree(1, 10, "/root", vec![entry(1, "", false), entry(2, "a.rs", true)]);
    let b = buffer(100, 5, Some(file(&tree, "a.rs", 2)), Some(&language), "fn a() {}");
    let mut project = project();
    let mut out = vec![];
    project.add_worktree(&tree, &mut out);
    let sync = Some(TextDocumentSync::Kind(SyncKind::Full));
    project.language_servers.insert(LanguageServerId(7), running(&language, server(7, sync)));
    project.language_server_ids.insert((WorktreeId(10), name()), LanguageServerId(7));
    project.opened_buffers.insert(5, OpenBuffer::Strong(EntityId(100)));
    Scene { project, cx: context(vec![b], vec![tree]), language }
}

fn change(name: &str, change: PathChange) -> UpdatedEntry {
    UpdatedEntry { path: path(name), entry_id: ProjectEntryId(9), change }
}

fn text_pattern(text: &str) -> GlobPattern {
    GlobPattern::Text(text.to_string())
}

#[test]
fn registrations_for_files_are_heeded() {
    assert!(registers_watched_files(WATCHED_FILES_METHOD, true));
    assert!(!registers_watched_files(WATCHED_FILES_METHOD, false));
    assert!(!registers_watched_files("textDocument/didSave", true));
}

#[test]
fn watchers_are_placed_in_their_worktree() {
    let s = scene();
    let placed = s.project.place_glob(&text_pattern("/root/src/*.rs"), &s.cx).unwrap();
    assert_eq!(placed.worktree_id, WorktreeId(10));
    assert_eq!(placed.pattern, "src/*.rs");
    assert!(s.project.place_glob(&text_pattern("/other/*.rs"), &s.cx).is_none());
}

#[test]
fn watched_files_are_reported() {
    let mut s = scene();
    let mut out = vec![];
    let watchers = vec![text_pattern("/root/src/**/*.rs"), text_pattern("/root/*.toml")];
    s.project.on_lsp_did_change_watched_files(LanguageServerId(7), &watchers, &s.cx, &mut out);
    assert_eq!(
        out,
        vec![
            Effect::ScanPathPrefix { worktree: EntityId(1), prefix: "src".to_string() },
            Effect::ScanPathPrefix { worktree: EntityId(1), prefix: "".to_string() },
            Effect::Notify,
        ]
    );
    out.clear();
    let changes = vec![
        change("src/deep/x.rs", PathChange::Added),
        change("src/x.md", PathChange::Added),
        change("Cargo.toml", PathChange::AddedOrUpdated),
        change("src/loaded.rs", PathChange::Loaded),
        change("src/gone.rs", PathChange::Removed),
    ];
    s.project.update_local_worktree_language_servers(&s.cx.worktrees[0], &changes, &mut out);
    let event = |name: &str, typ: FileChangeType| FileEvent { path: path(name), typ };
    assert_eq!(
        out,
        vec![Effect::NotifyServer(
            LanguageServerId(7),
            ServerNotification::DidChangeWatchedFiles {
                changes: vec![
                    event("/root/src/deep/x.rs", FileChangeType::Created),
                    event("/root/Cargo.toml", FileChangeType::Changed),
                    event("/root/src/gone.rs", FileChangeType::Deleted),
                ],
            },
        )]
    );
}

#[test]
fn an_invalid_glob_is_left_out() {
    let mut s = scene();
    let mut out = vec![];
    let watchers = vec![text_pattern("/root/[a"), text_pattern("/root/*.rs")];
    s.project.on_lsp_did_change_watched_files(LanguageServerId(7), &watchers, &s.cx, &mut out);
    out.clear();
    let changes = vec![change("[a", PathChange::Added), change("x.rs", PathChange::Updated)];
    s.project.update_local_worktree_language_servers(&s.cx.worktrees[0], &changes, &mut out);
    assert_eq!(
        out,
        vec![Effect::NotifyServer(
            LanguageServerId(7),
            ServerNotification::DidChangeWatchedFiles {
                changes: vec![FileEvent {
                    path: path("/root/x.rs"),
                    typ: FileChangeType::Changed,
                }],
            },
        )]
    );
}

#[test]
fn the_same_settings_restart_nothing() {
    let mut s = scene();
    let languages = vec![s.language.clone()];
    let mut settings = SortedMap::new();
    settings.insert("rust-analyzer".to_string(), "{}".to_string());
    let plan = s.project.on_settings_changed(&languages, settings, &s.cx);
    assert_eq!(plan.servers_to_restart.len(), 1);
    assert_eq!(plan.servers_to_start.len(), 1);
    assert_eq!(plan.formatters_to_check.len(), 1);
    assert!(plan.servers_to_stop.is_empty());
    let mut settings = SortedMap::new();
    settings.insert("rust-analyzer".to_string(), "{}".to_string());
    let plan = s.project.on_settings_changed(&languages, settings, &s.cx);
    assert!(plan.servers_to_restart.is_empty());
}

#[test]
fn a_server_that_is_switched_off_stops() {
    let mut s = scene();
    s.cx.default_settings = settings(false);
    let plan =
        s.project.on_settings_changed(&vec![s.language.clone()], SortedMap::new(), &s.cx);
    assert_eq!(plan.servers_to_stop, vec![(WorktreeId(10), name())]);
    let plan = s.project.on_settings_changed(&vec![], SortedMap::new(), &s.cx);
    assert!(plan.servers_to_stop.is_empty());
}

#[test]
fn copilot_gets_the_open_buffers_once() {
    let mut s = scene();
    let mut out = vec![];
    s.project.finish_settings_change(true, &s.cx, &mut out);
    s.project.finish_settings_change(true, &s.cx, &mut out);
    assert_eq!(
        out,
        vec![Effect::RegisterWithCopilot(EntityId(100)), Effect::Notify, Effect::Notify]
    );
}

#[test]
fn a_detected_language_is_set() {
    let mut s = scene();
    s.cx.buffers[0].language = None;
    let mut out = vec![];
    let none = s.project.detect_language_for_buffer(&s.cx.buffers[0], None, &s.cx, &mut out);
    assert!(none.is_none());
    assert!(out.is_empty());
    let found = Some(&s.language);
    let plan = s
        .project
        .detect_language_for_buffer(&s.cx.buffers[0], found, &s.cx, &mut out)
        .unwrap();
    assert_eq!(out, vec![Effect::SetLanguage { buffer: EntityId(100), language: Some(1) }]);
    assert_eq!(plan.start_in, Some(EntityId(1)));
    assert_eq!(plan.worktree_id, Some(WorktreeId(10)));
}

#[test]
fn reloaded_languages_are_forgotten() {
    let mut s = scene();
    let mut out = vec![];
    assert_eq!(s.project.follow_languages(3, 3, &s.cx, &mut out), 3);
    assert!(out.is_empty());
    assert_eq!(s.project.follow_languages(3, 4, &s.cx, &mut out), 4);
    assert!(out.contains(&Effect::SetLanguage { buffer: EntityId(100), language: None }));
}

#[test]
fn buffers_without_a_language_are_looked_at_again() {
    let mut s = scene();
    let mut out = vec![];
    assert!(s.project.maintain_buffer_languages(&s.cx, &mut out).is_empty());
    s.cx.buffers[0].language = None;
    assert_eq!(s.project.maintain_buffer_languages(&s.cx, &mut out), vec![EntityId(100)]);
    s.cx.buffers[0].contains_unknown_injections = true;
    s.cx.buffers[0].language = Some(s.language.clone());
    out.clear();
    s.project.maintain_buffer_languages(&s.cx, &mut out);
    assert_eq!(out, vec![Effect::Reparse(EntityId(100))]);
}

#[test]
fn running_servers_hear_of_the_configuration() {
    let s = scene();
    let servers = s.project.maintain_workspace_config();
    assert_eq!(servers.len(), 1);
    let mut out = vec![];
    let settings = Arc::new("{}".to_string());
    s.project.notify_configuration(&servers[0].1, settings.clone(), &mut out);
    assert_eq!(
        out,
        vec![Effect::NotifyServer(
            LanguageServerId(7),
            ServerNotification::DidChangeConfiguration { settings },
        )]
    );
}

#[test]
fn all_servers_are_shut_down() {
    let mut s = scene();
    assert_eq!(s.project.shutdown_language_servers(), vec![LanguageServerId(7)]);
    assert!(s.project.language_servers.is_empty());
}

#[test]
fn each_worktree_and_language_restarts_once() {
    let s = scene();
    let buffers = vec![EntityId(100), EntityId(100)];
    let found = vec![Some(s.language.clone()), Some(s.language.clone())];
    let restarted = s.project.restart_language_servers_for_buffers(&buffers, &found, &s.cx);
    assert_eq!(restarted.len(), 1);
    assert_eq!(*restarted.key_of(0), (EntityId(1), 1));
    let nothing =
        s.project.restart_language_servers_for_buffers(&buffers, &vec![None, None], &s.cx);
    assert!(nothing.is_empty());
}

fn known(version: i32) -> LspBufferSnapshot {
    LspBufferSnapshot {
        version,
        snapshot: TextSnapshot { version: 100 + version as u64, text: Arc::new(String::new()) },
    }
}

#[test]
fn the_text_of_a_version_is_found() {
    let mut s = scene();
    let mut texts = SortedMap::new();
    texts.insert(LanguageServerId(7), (0..15).map(known).collect::<Vec<_>>());
    s.project.buffer_snapshots.insert(5, texts);
    let b = &s.cx.buffers[0];
    let id = LanguageServerId(7);
    let found = s.project.buffer_snapshot_for_lsp_version(b, id, Some(12)).unwrap();
    assert_eq!(found.version, 112);
    let left = s.project.buffer_snapshots.get(&5).unwrap().get(&id).unwrap();
    assert_eq!(left.first().unwrap().version, 2);
    assert_eq!(
        s.project.buffer_snapshot_for_lsp_version(b, id, Some(99)),
        Err(ProjectError::UnknownVersion)
    );
    let current = s.project.buffer_snapshot_for_lsp_version(b, id, None).unwrap();
    assert_eq!(current.version, b.snapshot.version);
    assert_eq!(
        s.project.buffer_snapshot_for_lsp_version(b, LanguageServerId(8), Some(1)),
        Err(ProjectError::UnknownBuffer)
    );
}

fn problem(message: &str) -> LspDiagnostic {
    let at = |column: u32| PointUtf16 { row: 0, column };
    LspDiagnostic {
        range: TextRange { start: at(3), end: at(4) },
        severity: Some(DiagnosticSeverity::Error),
        code: None,
        source: Some("rustc".to_string()),
        message: message.to_string(),
        related_information: None,
        tags: None,
    }
}

fn published(diagnostics: Vec<LspDiagnostic>) -> PublishDiagnosticsParams {
    PublishDiagnosticsParams { uri: "file:///root/a.rs".to_string(), diagnostics, version: None }
}

#[test]
fn published_problems_reach_the_buffer() {
    let mut s = scene();
    let id = LanguageServerId(7);
    let sources = vec!["rustc".to_string()];
    let (target, entries) = s
        .project
        .update_diagnostics(
            id,
            Some(&path("/root/a.rs")),
            published(vec![problem("one"), problem("two")]),
            &sources,
            &s.cx,
        )
        .unwrap();
    assert_eq!(target.worktree, EntityId(1));
    assert_eq!(target.path.path, path("a.rs"));
    assert_eq!(target.buffer.unwrap().0, EntityId(100));
    assert_eq!(entries.len(), 2);
    assert!(entries.iter().all(|e| e.diagnostic.is_primary && e.diagnostic.is_disk_based));
    assert_ne!(entries[0].diagnostic.group_id, entries[1].diagnostic.group_id);
    assert_eq!(
        s.project.update_diagnostics(id, None, published(vec![]), &sources, &s.cx).err(),
        Some(ProjectError::UriIsNotAFile)
    );
    let elsewhere = path("/elsewhere/a.rs");
    assert_eq!(
        s.project
            .update_diagnostics(id, Some(&elsewhere), published(vec![]), &sources, &s.cx)
            .err(),
        Some(ProjectError::NoWorktreeForDiagnostics)
    );
}

#[test]
fn a_file_without_wildcards_is_watched_by_its_name() {
    let mut s = scene();
    let mut out = vec![];
    let watchers = vec![text_pattern("/root/Cargo.toml")];
    s.project.on_lsp_did_change_watched_files(LanguageServerId(7), &watchers, &s.cx, &mut out);
    assert_eq!(
        out[0],
        Effect::ScanPathPrefix { worktree: EntityId(1), prefix: "Cargo.toml".to_string() }
    );
    out.clear();
    let changes = vec![
        change("Cargo.toml", PathChange::Updated),
        change("Cargo.lock", PathChange::Updated),
        change("sub/Cargo.toml", PathChange::Updated),
    ];
    s.project.update_local_worktree_language_servers(&s.cx.worktrees[0], &changes, &mut out);
    assert_eq!(
        out,
        vec![Effect::NotifyServer(
            LanguageServerId(7),
            ServerNotification::DidChangeWatchedFiles {
                changes: vec![FileEvent {
                    path: path("/root/Cargo.toml"),
                    typ: FileChangeType::Changed,
                }],
            },
        )]
    );
}
