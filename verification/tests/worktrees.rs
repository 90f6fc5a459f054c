#![allow(dead_code)]

use project2::effects::{
    Effect, Event, FileInfo, LocalProjectUpdate, Message, PathChange, UpdatedEntry,
    WorktreeMetadata,
};
use project2::model::{DiagnosticSummary, ProjectPath};
use project2::project::{OpenBuffer, ProjectClientState, WorktreeHandle};
use project2::worktree_events::{
    assign_diff_base, changed_settings, update_local_worktree_settings,
};
use project2::ids::{
    EntityId, LanguageServerId, LanguageServerName, ProjectEntryId, WorktreeId,
};
use project2::map::SortedMap;
use project2::model::{
    AppContext, Buffer, Entry, File, FormatOnSave, Formatter, Language, LanguageServer,
    LanguageSettings, LineEnding, LspAdapter, SavedState, TextDocumentSync, TextSnapshot, Worktree,
};
use project2::path::{Component, Path};
use project2::project::{LanguageServerState, Project};
use std::sync::Arc;

fn path(text: &str) -> Path {
    let mut components = Vec::new();
    if text.starts_with('/') {
        components.push(Component::RootDir);
    }
    for part in text.split('/') {
        match part {
            "" => {}
            "." => components.push(Component::CurDir),
            ".." => components.push(Component::ParentDir),
            name => components.push(Component::Normal(name.to_string())),
        }
    }
    Path::from_components(components)
}

fn settings(enable_language_server: bool) -> Arc<LanguageSettings> {
    Arc::new(LanguageSettings {
        enable_language_server,
        formatter: Formatter::Auto,
        format_on_save: FormatOnSave::On,
        remove_trailing_whitespace_on_save: true,
        ensure_final_newline_on_save: true,
        tab_size: 4,
    })
}

fn adapter(name: &str) -> LspAdapter {
    LspAdapter {
        name: LanguageServerName(name.to_string()),
        disk_based_diagnostics_progress_token: None,
        disk_based_diagnostic_sources: vec![],
        language_ids: vec![("Rust".to_string(), "rust".to_string())],
        initialization_options: None,
        prettier_plugins: vec![],
        can_be_reinstalled: true,
        reinstall_attempt_count: 0,
    }
}

fn language(id: u64, name: &str, adapters: Vec<LspAdapter>) -> Arc<Language> {
    Arc::new(Language {
        id,
        name: name.to_string(),
        prettier_parser_name: None,
        lsp_adapters: adapters.into_iter().map(Arc::new).collect(),
    })
}

fn server(id: usize, sync: Option<TextDocumentSync>) -> LanguageServer {
    LanguageServer {
        server_id: LanguageServerId(id),
        name: format!("server {}", id),
        root_path: path("/root"),
        text_document_sync: sync,
        has_completion_provider: true,
        can_resolve_completions: false,
        completion_trigger_characters: None,
        document_formatting_provider: None,
        document_range_formatting_provider: None,
        inlay_hints_can_be_resolved: false,
    }
}

fn running(language: &Arc<Language>, server: LanguageServer) -> LanguageServerState {
    LanguageServerState::Running {
        language: language.clone(),
        adapter: language.lsp_adapters[0].clone(),
        server: Arc::new(server),
        watched_paths: SortedMap::new(),
        simulate_disk_based_diagnostics_completion: false,
    }
}

fn entry(id: usize, name: &str, is_file: bool) -> Entry {
    Entry { id: ProjectEntryId(id), path: path(name), mtime: 1, is_file, is_ignored: false }
}

fn worktree(entity: u64, id: usize, root: &str, entries: Vec<Entry>) -> Worktree {
    Worktree {
        entity_id: EntityId(entity),
        id: WorktreeId(id),
        is_local: true,
        is_visible: true,
        root_name: path(root).file_name().unwrap_or("".to_string()),
        abs_path: path(root),
        entries,
        diagnostic_summaries: vec![],
        local_settings: vec![],
    }
}

fn file(tree: &Worktree, name: &str, entry_id: usize) -> File {
    File {
        worktree: tree.entity_id,
        worktree_id: tree.id,
        path: path(name),
        abs_path: tree.abs_path.join(&path(name)),
        entry_id: ProjectEntryId(entry_id),
        mtime: 1,
        is_local: tree.is_local,
        is_deleted: false,
    }
}

fn buffer(
    entity: u64,
    remote_id: u64,
    file: Option<File>,
    language: Option<&Arc<Language>>,
    text: &str,
) -> Buffer {
    Buffer {
        entity_id: EntityId(entity),
        remote_id,
        file,
        language: language.cloned(),
        is_plain_text: false,
        contains_unknown_injections: false,
        is_dirty: false,
        snapshot: TextSnapshot { version: 1, text: Arc::new(text.to_string()) },
        saved: SavedState {
            version: 1,
            fingerprint: 0,
            line_ending: LineEnding::Unix,
            mtime: 1,
        },
        diff_base: None,
        settings: settings(true),
    }
}

fn context(buffers: Vec<Buffer>, worktrees: Vec<Worktree>) -> AppContext {
    AppContext { buffers, worktrees, language_settings: vec![], default_settings: settings(true) }
}

fn project() -> Project {
    Project::local_with_nonce(42, SortedMap::new(), false)
}

fn two_trees() -> (Project, AppContext) {
    let first = worktree(1, 10, "/root/one", vec![entry(1, "", false), entry(2, "a.rs", true)]);
    let mut second = worktree(2, 20, "/root/two", vec![entry(3, "", false), entry(4, "b.rs", true)]);
    second.is_visible = false;
    let mut p = project();
    let mut out = vec![];
    p.add_worktree(&first, &mut out);
    p.add_worktree(&second, &mut out);
    (p, context(vec![], vec![first, second]))
}

fn project_path(worktree: usize, name: &str) -> ProjectPath {
    ProjectPath { worktree_id: WorktreeId(worktree), path: path(name) }
}

fn change(name: &str, entry: usize, change: PathChange) -> UpdatedEntry {
    UpdatedEntry { path: path(name), entry_id: ProjectEntryId(entry), change }
}

#[test]
fn visible_worktrees_are_held() {
    let (p, _) = two_trees();
    assert_eq!(
        p.worktrees,
        vec![WorktreeHandle::Strong(EntityId(1)), WorktreeHandle::Weak(EntityId(2))]
    );
}

#[test]
fn shared_projects_hold_all_worktrees() {
    let mut p = project();
    p.client_state = Some(ProjectClientState::Local { remote_id: 7 });
    let mut tree = worktree(2, 20, "/root/two", vec![]);
    tree.is_visible = false;
    let mut out = vec![];
    p.add_worktree(&tree, &mut out);
    assert_eq!(p.worktrees, vec![WorktreeHandle::Strong(EntityId(2))]);
    assert_eq!(
        out,
        vec![
            Effect::Emit(Event::WorktreeAdded),
            Effect::QueueUpdate(LocalProjectUpdate::WorktreesChanged),
            Effect::Notify,
        ]
    );
}

#[test]
fn worktrees_are_found() {
    let (p, cx) = two_trees();
    assert_eq!(p.worktrees(&cx), vec![EntityId(1), EntityId(2)]);
    assert_eq!(p.visible_worktrees(&cx), vec![EntityId(1)]);
    assert_eq!(p.worktree_root_names(&cx), vec!["one".to_string()]);
    assert_eq!(p.worktree_for_id(WorktreeId(20), &cx).unwrap().entity_id, EntityId(2));
    assert!(p.worktree_for_id(WorktreeId(30), &cx).is_none());
    assert_eq!(p.worktree_id_for_entry(ProjectEntryId(4), &cx), Some(WorktreeId(20)));
    assert_eq!(p.worktree_id_for_entry(ProjectEntryId(9), &cx), None);
}

#[test]
fn paths_lead_to_worktrees_and_back() {
    let (p, cx) = two_trees();
    let (tree, rest) = p.find_local_worktree(&path("/root/two/src/x.rs"), &cx).unwrap();
    assert_eq!(tree.entity_id, EntityId(2));
    assert_eq!(rest, path("src/x.rs"));
    assert_eq!(tree.abs_path.join(&rest), path("/root/two/src/x.rs"));
    assert!(p.find_local_worktree(&path("/elsewhere"), &cx).is_none());
    assert_eq!(
        p.find_or_create_local_worktree(&path("/root/one"), &cx),
        Some((EntityId(1), path("")))
    );
    assert_eq!(p.absolute_path(&project_path(10, "a.rs"), &cx), Some(path("/root/one/a.rs")));
    assert!(p.contains_path(&path("/root/one/deep/down"), &cx));
    assert!(p.contains_paths(&vec![path("/root/one"), path("/root/two")], &cx));
    assert!(!p.contains_paths(&vec![path("/root/one"), path("/root/three")], &cx));
}

#[test]
fn entries_are_found_by_path() {
    let (p, cx) = two_trees();
    assert_eq!(p.entry_for_path(&project_path(20, "b.rs"), &cx).unwrap().id, ProjectEntryId(4));
    assert!(p.entry_for_path(&project_path(20, "a.rs"), &cx).is_none());
    assert_eq!(p.path_for_entry(ProjectEntryId(2), &cx), Some(project_path(10, "a.rs")));
}

#[test]
fn removed_worktrees_are_gone() {
    let (mut p, cx) = two_trees();
    let mut out = vec![];
    p.remove_worktree(WorktreeId(10), &cx, &mut out);
    assert_eq!(p.worktrees, vec![WorktreeHandle::Weak(EntityId(2))]);
    assert!(p.worktree_for_id(WorktreeId(10), &cx).is_none());
    assert_eq!(
        out,
        vec![Effect::Emit(Event::WorktreeRemoved(WorktreeId(10))), Effect::Notify]
    );
}

#[test]
fn released_worktrees_lose_their_settings() {
    let (mut p, mut cx) = two_trees();
    cx.worktrees.remove(1);
    let mut out = vec![];
    p.worktree_released(WorktreeId(20), EntityId(2), &cx, &mut out);
    assert_eq!(p.worktrees, vec![WorktreeHandle::Strong(EntityId(1))]);
    assert_eq!(out, vec![Effect::Notify, Effect::ClearLocalSettings(EntityId(2))]);
}

#[test]
fn the_active_entry_is_announced_once() {
    let (mut p, cx) = two_trees();
    let mut out = vec![];
    p.set_active_path(Some(project_path(10, "a.rs")), &cx, &mut out);
    p.set_active_path(Some(project_path(10, "a.rs")), &cx, &mut out);
    assert_eq!(p.active_entry(), Some(ProjectEntryId(2)));
    assert_eq!(out, vec![Effect::Emit(Event::ActiveEntryChanged(Some(ProjectEntryId(2))))]);
    p.set_active_path(None, &cx, &mut out);
    assert_eq!(p.active_entry(), None);
    assert_eq!(out.len(), 2);
}

#[test]
fn problems_are_summed_up() {
    let (p, mut cx) = two_trees();
    let id = LanguageServerId(1);
    cx.worktrees[0].diagnostic_summaries =
        vec![(path("a.rs"), id, DiagnosticSummary { error_count: 2, warning_count: 1 })];
    cx.worktrees[1].diagnostic_summaries =
        vec![(path("b.rs"), id, DiagnosticSummary { error_count: 3, warning_count: 4 })];
    let all = p.diagnostic_summaries(&cx);
    assert_eq!(all.len(), 1);
    assert_eq!(all[0].0, project_path(10, "a.rs"));
    let sum = p.diagnostic_summary(&cx);
    assert_eq!((sum.error_count, sum.warning_count), (2, 1));
}

#[test]
fn metadata_tells_of_live_worktrees() {
    let (p, mut cx) = two_trees();
    cx.worktrees.remove(1);
    assert_eq!(
        p.worktree_metadata_protos(&cx),
        vec![WorktreeMetadata {
            id: 10,
            root_name: "one".to_string(),
            visible: true,
            abs_path: path("/root/one"),
        }]
    );
}

#[test]
fn a_worktree_is_created_once() {
    let mut p = project();
    assert!(p.create_local_worktree(path("/root/one")));
    assert!(!p.create_local_worktree(path("/root/one")));
    let tree = worktree(1, 10, "/root/one", vec![]);
    let mut out = vec![];
    p.finish_creating_worktree(&path("/root/one"), Some(&tree), &mut out);
    assert_eq!(p.worktrees.len(), 1);
    assert!(p.create_local_worktree(path("/root/one")));
    p.finish_creating_worktree(&path("/root/one"), None, &mut out);
    assert_eq!(p.worktrees.len(), 1);
}

/// A project with one open buffer for the entry 2, `a.rs`.
fn with_buffer() -> (Project, Worktree, Buffer) {
    let tree = worktree(1, 10, "/root/one", vec![entry(2, "a.rs", true)]);
    let b = buffer(100, 5, Some(file(&tree, "a.rs", 2)), None, "text");
    let mut p = project();
    let mut out = vec![];
    p.add_worktree(&tree, &mut out);
    p.opened_buffers.insert(5, OpenBuffer::Weak(EntityId(100)));
    p.local_buffer_ids_by_entry_id.insert(ProjectEntryId(2), 5);
    p.local_buffer_ids_by_path.insert(project_path(10, "a.rs"), 5);
    (p, tree, b)
}

#[test]
fn a_renamed_file_keeps_its_buffer() {
    let (mut p, mut tree, b) = with_buffer();
    tree.entries = vec![entry(2, "moved.rs", true)];
    p.client_state = Some(ProjectClientState::Local { remote_id: 7 });
    let cx = context(vec![b], vec![]);
    let mut out = vec![];
    let changes = vec![change("moved.rs", 2, PathChange::Added)];
    let renamed = p.update_local_worktree_buffers(&tree, &changes, &cx, &mut out);
    assert_eq!(renamed.len(), 1);
    assert_eq!(renamed[0].0, EntityId(100));
    assert_eq!(renamed[0].1.abs_path, path("/root/one/a.rs"));
    assert_eq!(p.local_buffer_ids_by_entry_id.get(&ProjectEntryId(2)), Some(&5));
    assert_eq!(p.local_buffer_ids_by_path.get(&project_path(10, "moved.rs")), Some(&5));
    let info = || FileInfo {
        worktree_id: 10,
        entry_id: 2,
        path: path("moved.rs"),
        mtime: 1,
        is_deleted: false,
    };
    assert_eq!(
        out,
        vec![
            Effect::Send(Message::UpdateBufferFile { project_id: 7, buffer_id: 5, file: info() }),
            Effect::UpdateBufferFile { buffer: EntityId(100), file: info() },
        ]
    );
}

#[test]
fn a_deleted_file_is_marked() {
    let (mut p, mut tree, b) = with_buffer();
    tree.entries = vec![];
    let cx = context(vec![b], vec![]);
    let mut out = vec![];
    let changes = vec![change("a.rs", 2, PathChange::Removed)];
    let renamed = p.update_local_worktree_buffers(&tree, &changes, &cx, &mut out);
    assert!(renamed.is_empty());
    let info = FileInfo {
        worktree_id: 10,
        entry_id: 2,
        path: path("a.rs"),
        mtime: 1,
        is_deleted: true,
    };
    assert_eq!(out, vec![Effect::UpdateBufferFile { buffer: EntityId(100), file: info }]);
}

#[test]
fn a_file_written_anew_gets_the_new_entry() {
    let (mut p, mut tree, b) = with_buffer();
    tree.entries = vec![entry(8, "a.rs", true)];
    let cx = context(vec![b], vec![]);
    let mut out = vec![];
    let changes = vec![change("a.rs", 2, PathChange::Updated)];
    p.update_local_worktree_buffers(&tree, &changes, &cx, &mut out);
    assert_eq!(p.local_buffer_ids_by_entry_id.get(&ProjectEntryId(2)), None);
    assert_eq!(p.local_buffer_ids_by_entry_id.get(&ProjectEntryId(8)), Some(&5));
}

#[test]
fn a_dead_buffer_is_forgotten() {
    let (mut p, tree, _) = with_buffer();
    let cx = context(vec![], vec![]);
    let mut out = vec![];
    let changes = vec![change("a.rs", 2, PathChange::Updated)];
    p.update_local_worktree_buffers(&tree, &changes, &cx, &mut out);
    assert!(p.opened_buffers.is_empty());
    assert!(p.local_buffer_ids_by_entry_id.is_empty());
    assert!(p.local_buffer_ids_by_path.is_empty());
    assert!(out.is_empty());
}

#[test]
fn buffers_of_changed_repositories_are_found() {
    let (mut p, tree, b) = with_buffer();
    p.loading_buffers_by_path.insert(project_path(10, "lib/x.rs"));
    p.loading_buffers_by_path.insert(project_path(20, "lib/y.rs"));
    let cx = context(vec![b], vec![]);
    let found = p.update_local_worktree_buffers_git_repos(&tree, &vec![path("lib")], &cx);
    assert_eq!(found.loading, vec![path("lib/x.rs")]);
    assert!(found.open.is_empty());
    let found = p.update_local_worktree_buffers_git_repos(&tree, &vec![path("")], &cx);
    assert_eq!(found.loading, vec![path("lib/x.rs")]);
    assert_eq!(found.open, vec![(EntityId(100), path("a.rs"))]);
}

#[test]
fn a_diff_base_is_passed_on() {
    let (_, _, b) = with_buffer();
    let base = Some(Arc::new("base".to_string()));
    let mut out = vec![];
    assign_diff_base(&b, base.clone(), Some(7), &mut out);
    assert_eq!(
        out,
        vec![
            Effect::SetDiffBase { buffer: EntityId(100), diff_base: base.clone() },
            Effect::Send(Message::UpdateDiffBase { project_id: 7, buffer_id: 5, diff_base: base }),
        ]
    );
}

#[test]
fn settings_files_are_recognised() {
    let tree = worktree(1, 10, "/root/one", vec![]);
    let changes = vec![
        change(".zed/settings.json", 1, PathChange::Added),
        change("sub/.zed/settings.json", 2, PathChange::Removed),
        change("settings.json", 3, PathChange::Added),
    ];
    let found = changed_settings(&tree, &changes, &path(".zed/settings.json"));
    assert_eq!(found.len(), 2);
    assert_eq!(found[0].directory, path(""));
    assert_eq!(found[0].file, Some(path("/root/one/.zed/settings.json")));
    assert_eq!(found[1].directory, path("sub"));
    assert_eq!(found[1].file, None);
}

#[test]
fn settings_are_put_in_force_and_shared() {
    let content = Some(Arc::new("{}".to_string()));
    let mut out = vec![];
    update_local_worktree_settings(
        EntityId(1),
        WorktreeId(10),
        Some(7),
        &vec![(path("sub"), content.clone())],
        &mut out,
    );
    assert_eq!(
        out,
        vec![
            Effect::SetLocalSettings {
                worktree: EntityId(1),
                path: path("sub"),
                content: content.clone(),
            },
            Effect::Send(Message::UpdateWorktreeSettings {
                project_id: 7,
                worktree_id: 10,
                path: path("sub"),
                content,
            }),
        ]
    );
}

#[test]
fn prettier_reads_its_configuration_again() {
    let mut p = project();
    p.prettier_instances.insert((None, path("/default")));
    p.prettier_instances.insert((Some(WorktreeId(10)), path("/root/one")));
    p.prettier_instances.insert((Some(WorktreeId(20)), path("/root/two")));
    let files = vec![path(".prettierrc"), path("node_modules/.prettierrc")];
    let changes = vec![change(".prettierrc", 1, PathChange::Updated)];
    let reloaded = p.update_prettier_settings(WorktreeId(10), &changes, &files);
    assert_eq!(
        reloaded,
        vec![(None, path("/default")), (Some(WorktreeId(10)), path("/root/one"))]
    );
    let loaded = vec![change(".prettierrc", 1, PathChange::Loaded)];
    assert!(p.update_prettier_settings(WorktreeId(10), &loaded, &files).is_empty());
    let package = vec![change("node_modules/.prettierrc", 1, PathChange::Updated)];
    assert!(p.update_prettier_settings(WorktreeId(10), &package, &files).is_empty());
}
