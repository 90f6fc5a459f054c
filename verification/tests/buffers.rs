#![allow(dead_code)]

use project2::buffers::{Item, OpenAction, OpenByIdAction, SaveAction};
use project2::effects::{Effect, Event, Operation, ServerNotification};
use project2::entries::{EntryAction, EntryRequest, PathSummary};
use project2::model::ProjectPath;
use project2::project::{OpenBuffer, ProjectClientState, ProjectError};
use project2::ids::{
    EntityId, LanguageServerId, LanguageServerName, ProjectEntryId, WorktreeId,
};
use project2::map::SortedMap;
use project2::model::{
    AppContext, Buffer, Entry, File, FormatOnSave, Formatter, Language, LanguageServer,
    LanguageSettings, LineEnding, LspAdapter, SavedState, TextDocumentSync, TextSnapshot, Worktree,
};
use project2::path::{Component, Path};
use project2::project::{LanguageServerState, Project};
use std::sync::Arc;

fn path(text: &str) -> Path {
    let mut components = Vec::new();
    if text.starts_with('/') {
        components.push(Component::RootDir);
    }
    for part in text.split('/') {
        match part {
            "" => {}
            "." => components.push(Component::CurDir),
            ".." => components.push(Component::ParentDir),
            name => components.push(Component::Normal(name.to_string())),
        }
    }
    Path::from_components(components)
}

fn settings(enable_language_server: bool) -> Arc<LanguageSettings> {
    Arc::new(LanguageSettings {
        enable_language_server,
        formatter: Formatter::Auto,
        format_on_save: FormatOnSave::On,
        remove_trailing_whitespace_on_save: true,
        ensure_final_newline_on_save: true,
        tab_size: 4,
    })
}

fn adapter(name: &str) -> LspAdapter {
    LspAdapter {
        name: LanguageServerName(name.to_string()),
        disk_based_diagnostics_progress_token: None,
        disk_based_diagnostic_sources: vec![],
        language_ids: vec![("Rust".to_string(), "rust".to_string())],
        initialization_options: None,
        prettier_plugins: vec![],
        can_be_reinstalled: true,
        reinstall_attempt_count: 0,
    }
}

fn language(id: u64, name: &str, adapters: Vec<LspAdapter>) -> Arc<Language> {
    Arc::new(Language {
        id,
        name: name.to_string(),
        prettier_parser_name: None,
        lsp_adapters: adapters.into_iter().map(Arc::new).collect(),
    })
}

fn server(id: usize, sync: Option<TextDocumentSync>) -> LanguageServer {
    LanguageServer {
        server_id: LanguageServerId(id),
        name: format!("server {}", id),
        root_path: path("/root"),
        text_document_sync: sync,
        has_completion_provider: true,
        can_resolve_completions: false,
        completion_trigger_characters: None,
        document_formatting_provider: None,
        document_range_formatting_provider: None,
        inlay_hints_can_be_resolved: false,
    }
}

fn running(language: &Arc<Language>, server: LanguageServer) -> LanguageServerState {
    LanguageServerState::Running {
        language: language.clone(),
        adapter: language.lsp_adapters[0].clone(),
        server: Arc::new(server),
        watched_paths: SortedMap::new(),
        simulate_disk_based_diagnostics_completion: false,
    }
}

fn entry(id: usize, name: &str, is_file: bool) -> Entry {
    Entry { id: ProjectEntryId(id), path: path(name), mtime: 1, is_file, is_ignored: false }
}

fn worktree(entity: u64, id: usize, root: &str, entries: Vec<Entry>) -> Worktree {
    Worktree {
        entity_id: EntityId(entity),
        id: WorktreeId(id),
        is_local: true,
        is_visible: true,
        root_name: path(root).file_name().unwrap_or("".to_string()),
        abs_path: path(root),
        entries,
        diagnostic_summaries: vec![],
        local_settings: vec![],
    }
}

fn file(tree: &Worktree, name: &str, entry_id: usize) -> File {
    File {
        worktree: tree.entity_id,
        worktree_id: tree.id,
        path: path(name),
        abs_path: tree.abs_path.join(&path(name)),
        entry_id: ProjectEntryId(entry_id),
        mtime: 1,
        is_local: tree.is_local,
        is_deleted: false,
    }
}

fn buffer(
    entity: u64,
    remote_id: u64,
    file: Option<File>,
    language: Option<&Arc<Language>>,
    text: &str,
) -> Buffer {
    Buffer {
        entity_id: EntityId(entity),
        remote_id,
        file,
        language: language.cloned(),
        is_plain_text: false,
        contains_unknown_injections: false,
        is_dirty: false,
        snapshot: TextSnapshot { version: 1, text: Arc::new(text.to_string()) },
        saved: SavedState {
            version: 1,
            fingerprint: 0,
            line_ending: LineEnding::Unix,
            mtime: 1,
        },
        diff_base: None,
        settings: settings(true),
    }
}

fn context(buffers: Vec<Buffer>, worktrees: Vec<Worktree>) -> AppContext {
    AppContext { buffers, worktrees, language_settings: vec![], default_settings: settings(true) }
}

fn project() -> Project {
    Project::local_with_nonce(42, SortedMap::new(), false)
}

fn project_path(worktree: usize, name: &str) -> ProjectPath {
    ProjectPath { worktree_id: WorktreeId(worktree), path: path(name) }
}

fn guest() -> Option<ProjectClientState> {
    Some(ProjectClientState::Remote { sharing_has_stopped: false, remote_id: 7, replica_id: 3 })
}

/// A project with the worktree 10 and a buffer for its file `a.rs`.
fn scene() -> (Project, AppContext) {
    let tree = worktree(1, 10, "/root", vec![entry(2, "a.rs", true), entry(3, "b.rs", true)]);
    let b = buffer(100, 5, Some(file(&tree, "a.rs", 2)), None, "text");
    let mut p = project();
    let mut out = vec![];
    p.add_worktree(&tree, &mut out);
    (p, context(vec![b], vec![tree]))
}

#[test]
fn a_registered_buffer_is_found() {
    let (mut p, cx) = scene();
    let mut out = vec![];
    assert_eq!(p.register_buffer(&cx.buffers[0], None, &cx, &mut out), Ok(true));
    assert_eq!(
        out,
        vec![
            Effect::DeferDiffRecalculation,
            Effect::SetLanguageRegistry(EntityId(100)),
            Effect::ObserveBuffer(EntityId(100)),
            Effect::DetectLanguage(EntityId(100)),
        ]
    );
    assert_eq!(p.buffer_for_id(5, &cx).map(|b| b.entity_id), Some(EntityId(100)));
    let found = p.get_open_buffer(&project_path(10, "a.rs"), &cx);
    assert_eq!(found.map(|b| b.remote_id), Some(5));
    assert!(p.has_open_buffer(&project_path(10, "a.rs"), &cx));
    assert!(!p.has_open_buffer(&project_path(10, "b.rs"), &cx));
    assert_eq!(p.opened_buffers(&cx), vec![EntityId(100)]);
    assert_eq!(p.local_buffer_ids_by_entry_id.get(&ProjectEntryId(2)), Some(&5));
    assert_eq!(p.local_buffer_ids_by_path.get(&project_path(10, "a.rs")), Some(&5));
    out.clear();
    p.finish_registering_buffer(&cx.buffers[0], &mut out);
    assert_eq!(
        out,
        vec![
            Effect::ShowWorktreeDiagnostics { buffer: EntityId(100) },
            Effect::RegisterWithCopilot(EntityId(100)),
            Effect::WakeBufferWaiters,
        ]
    );
}

#[test]
fn a_buffer_is_registered_once() {
    let (mut p, cx) = scene();
    let mut out = vec![];
    assert_eq!(p.register_buffer(&cx.buffers[0], None, &cx, &mut out), Ok(true));
    assert_eq!(
        p.register_buffer(&cx.buffers[0], None, &cx, &mut out),
        Err(ProjectError::BufferAlreadyRegistered(5))
    );
    p.client_state = guest();
    assert_eq!(p.register_buffer(&cx.buffers[0], None, &cx, &mut out), Ok(false));
}

#[test]
fn waiting_operations_are_applied() {
    let (mut p, cx) = scene();
    p.client_state = guest();
    p.opened_buffers.insert(5, OpenBuffer::Operations(vec![Operation(1), Operation(2)]));
    let mut out = vec![];
    assert_eq!(p.register_buffer(&cx.buffers[0], Some(70), &cx, &mut out), Ok(true));
    assert_eq!(out[0], Effect::DebounceDiffRecalculation { delay: 70 });
    assert_eq!(
        out[2],
        Effect::ApplyOperations {
            buffer: EntityId(100),
            operations: vec![Operation(1), Operation(2)],
        }
    );
    assert!(matches!(p.opened_buffers.get(&5), Some(OpenBuffer::Strong(EntityId(100)))));
}

#[test]
fn only_the_host_creates_buffers() {
    let (mut p, _) = scene();
    let first = p.create_buffer().unwrap();
    assert_eq!(p.create_buffer(), Ok(first + 1));
    p.client_state = guest();
    assert_eq!(p.create_buffer(), Err(ProjectError::GuestsCannotCreateBuffers));
}

#[test]
fn a_buffer_is_loaded_once() {
    let (mut p, cx) = scene();
    let next = p.next_buffer_id;
    let first = p.open_buffer(project_path(10, "b.rs"), &cx).unwrap();
    assert!(matches!(
        first,
        OpenAction::LoadLocal { buffer_id, worktree: EntityId(1), path: ref at }
            if buffer_id == next && *at == path("b.rs")
    ));
    assert!(matches!(
        p.open_buffer(project_path(10, "b.rs"), &cx),
        Ok(OpenAction::AwaitLoading)
    ));
    p.finish_loading_buffer(&project_path(10, "b.rs"));
    assert!(p.loading_buffers_by_path.is_empty());
    assert_eq!(
        p.open_buffer(project_path(11, "b.rs"), &cx).err(),
        Some(ProjectError::NoSuchWorktree)
    );
    let mut out = vec![];
    assert_eq!(p.register_buffer(&cx.buffers[0], None, &cx, &mut out), Ok(true));
    assert!(matches!(
        p.open_buffer(project_path(10, "a.rs"), &cx),
        Ok(OpenAction::Ready(EntityId(100)))
    ));
}

#[test]
fn a_guest_asks_the_host_for_a_buffer() {
    let (mut p, mut cx) = scene();
    cx.worktrees[0].is_local = false;
    p.client_state = guest();
    assert!(matches!(
        p.open_buffer(project_path(10, "b.rs"), &cx),
        Ok(OpenAction::RequestFromHost { project_id: 7, worktree_id: 10, path: ref at })
            if *at == path("b.rs")
    ));
    assert!(matches!(
        p.open_buffer_by_id(9, &cx),
        Ok(OpenByIdAction::RequestFromHost { project_id: 7, id: 9 })
    ));
    p.client_state = None;
    assert_eq!(p.open_buffer_by_id(9, &cx).err(), Some(ProjectError::NoSuchBuffer(9)));
}

#[test]
fn absolute_paths_are_opened() {
    let (p, cx) = scene();
    assert_eq!(p.open_local_buffer(&path("/root/a.rs"), &cx), Ok(project_path(10, "a.rs")));
    assert_eq!(
        p.open_local_buffer(&path("/other/a.rs"), &cx),
        Err(ProjectError::NoSuchPath)
    );
    assert_eq!(p.open_local_buffer_via_lsp(None, &cx), Err(ProjectError::UriIsNotAFile));
    assert_eq!(
        p.open_local_buffer_via_lsp(Some(&path("/root/a.rs")), &cx),
        Ok(Some(project_path(10, "a.rs")))
    );
    assert_eq!(p.open_local_buffer_via_lsp(Some(&path("/std/lib.rs")), &cx), Ok(None));
}

#[test]
fn a_worktree_for_a_library_gets_the_server() {
    let (mut p, _) = scene();
    let name = LanguageServerName("rust-analyzer".to_string());
    let at = p.add_worktree_for_server(WorktreeId(30), name.clone(), LanguageServerId(7));
    assert_eq!(at, project_path(30, ""));
    assert_eq!(p.language_server_ids.get(&(WorktreeId(30), name)), Some(&LanguageServerId(7)));
}

#[test]
fn the_entry_of_an_opened_path_is_given() {
    let (p, mut cx) = scene();
    assert_eq!(p.open_path(&cx.buffers[0]), Ok((ProjectEntryId(2), EntityId(100))));
    assert_eq!(Item::project_path(&cx.buffers[0]), Some(project_path(10, "a.rs")));
    cx.buffers[0].file.as_mut().unwrap().is_deleted = true;
    assert_eq!(p.open_path(&cx.buffers[0]), Err(ProjectError::NoSuchEntry));
    cx.buffers[0].file = None;
    assert_eq!(Item::entry_id(&cx.buffers[0]), None);
    assert_eq!(Item::project_path(&cx.buffers[0]), None);
}

#[test]
fn a_buffer_is_saved_where_its_file_is() {
    let (p, mut cx) = scene();
    assert!(matches!(
        p.save_buffer(&cx.buffers[0], &cx),
        Ok(SaveAction::SaveLocally { worktree: EntityId(1), path: ref at }) if *at == path("a.rs")
    ));
    let untitled = buffer(101, 6, None, None, "");
    assert_eq!(p.save_buffer(&untitled, &cx).err(), Some(ProjectError::BufferHasNoFile));
    cx.buffers.push(untitled);
    let all = p.save_buffers(&vec![EntityId(100), EntityId(101), EntityId(102)], &cx);
    assert_eq!(all.len(), 2);
    assert!(all[0].is_ok());
    assert!(all[1].is_err());
    cx.worktrees[0].is_local = false;
    assert!(matches!(
        p.save_buffer(&cx.buffers[0], &cx),
        Ok(SaveAction::RequestFromHost { worktree: EntityId(1) })
    ));
}

#[test]
fn a_buffer_saved_elsewhere_is_closed_first() {
    let (mut p, mut cx) = scene();
    let language = language(1, "Rust", vec![adapter("rust-analyzer")]);
    cx.buffers[0].language = Some(language.clone());
    p.language_servers.insert(LanguageServerId(7), running(&language, server(7, None)));
    p.language_server_ids.insert(
        (WorktreeId(10), LanguageServerName("rust-analyzer".to_string())),
        LanguageServerId(7),
    );
    let mut out = vec![];
    let to = p.save_buffer_as(&cx.buffers[0], &path("/root/c.rs"), &cx, &mut out);
    assert_eq!(to, Some((EntityId(1), path("c.rs"))));
    assert_eq!(
        out,
        vec![
            Effect::ClearBufferDiagnostics {
                buffer: EntityId(100),
                server_id: LanguageServerId(7),
            },
            Effect::NotifyServer(
                LanguageServerId(7),
                ServerNotification::DidClose { document: path("/root/a.rs") },
            ),
        ]
    );
    let to = p.save_buffer_as(&cx.buffers[0], &path("/new/c.rs"), &cx, &mut out);
    assert_eq!(to, None);
}

#[test]
fn entries_are_changed_where_they_are() {
    let (mut p, mut cx) = scene();
    assert!(matches!(
        p.create_entry(&project_path(10, "new"), true, &cx),
        Some(EntryAction::Local { worktree: EntityId(1) })
    ));
    assert!(p.create_entry(&project_path(11, "new"), true, &cx).is_none());
    let mut out = vec![];
    assert!(p.delete_entry(ProjectEntryId(2), &cx, &mut out).is_some());
    assert_eq!(out, vec![Effect::Emit(Event::DeletedEntry(ProjectEntryId(2)))]);
    assert!(p.copy_entry(ProjectEntryId(99), &path("x"), &cx).is_none());
    p.client_state = guest();
    cx.worktrees[0].is_local = false;
    assert!(matches!(
        p.rename_entry(ProjectEntryId(2), &path("x"), &cx),
        Some(EntryAction::Remote {
            worktree: EntityId(1),
            request: EntryRequest::Rename { project_id: 7, entry_id: 2, new_path: ref at },
        }) if *at == path("x")
    ));
    assert!(matches!(
        p.expand_entry(WorktreeId(10), ProjectEntryId(3), &cx),
        Some(EntryAction::Remote {
            request: EntryRequest::Expand { project_id: 7, entry_id: 3 },
            ..
        })
    ));
}

#[test]
fn the_host_finds_what_guests_name() {
    let (p, cx) = scene();
    let mut out = vec![];
    assert_eq!(p.handle_create_project_entry(10, &cx), Ok(EntityId(1)));
    assert_eq!(p.handle_create_project_entry(11, &cx), Err(ProjectError::NoSuchWorktree));
    assert_eq!(p.handle_rename_project_entry(3, &cx), Ok(EntityId(1)));
    assert_eq!(p.handle_rename_project_entry(9, &cx), Err(ProjectError::NoSuchWorktree));
    assert_eq!(p.handle_copy_project_entry(3, &cx), Ok(EntityId(1)));
    assert_eq!(p.handle_copy_project_entry(9, &cx), Err(ProjectError::NoSuchWorktree));
    assert_eq!(p.handle_expand_project_entry(3, &cx), Ok(EntityId(1)));
    assert_eq!(p.handle_expand_project_entry(9, &cx), Err(ProjectError::NoSuchWorktree));
    assert_eq!(p.handle_delete_project_entry(2, &cx, &mut out), Ok(EntityId(1)));
    assert_eq!(out, vec![Effect::Emit(Event::DeletedEntry(ProjectEntryId(2)))]);
    assert_eq!(p.handle_update_worktree(10, &cx), Some(EntityId(1)));
    assert_eq!(p.handle_update_worktree(11, &cx), None);
}

#[test]
fn a_guest_hears_of_problems() {
    let (p, cx) = scene();
    let summary = |path: Path| PathSummary {
        path,
        language_server_id: 7,
        error_count: 2,
        warning_count: 1,
    };
    let mut out = vec![];
    p.handle_update_diagnostic_summary(10, Some(summary(path("a.rs"))), &cx, &mut out);
    assert_eq!(
        out,
        vec![
            Effect::SetDiagnosticSummary {
                worktree: EntityId(1),
                path: path("a.rs"),
                language_server_id: LanguageServerId(7),
                error_count: 2,
                warning_count: 1,
            },
            Effect::Emit(Event::DiagnosticsUpdated {
                path: project_path(10, "a.rs"),
                language_server_id: LanguageServerId(7),
            }),
        ]
    );
    out.clear();
    p.handle_update_diagnostic_summary(11, Some(summary(path("a.rs"))), &cx, &mut out);
    p.handle_update_diagnostic_summary(10, None, &cx, &mut out);
    assert!(out.is_empty());
    let content = Some(Arc::new("{}".to_string()));
    p.handle_update_worktree_settings(10, path("sub"), content.clone(), &cx, &mut out);
    assert_eq!(
        out,
        vec![Effect::SetLocalSettings { worktree: EntityId(1), path: path("sub"), content }]
    );
}
