#![allow(dead_code)]

use project2::diagnostics::PublishDiagnosticsParams;
use project2::edit_run::{EditAction, EditEvent};
use project2::effects::{Effect, Event, Message, ServerNotification};
use project2::format_run::{FormatAction, FormatEvent, FormatRun};
use project2::formatting::{FormatOutcome, FormatTarget, FormatTrigger};
use project2::progress::{ProgressToken, WorkDoneProgress};
use project2::project::{
    LanguageServerStatus, ProjectClientState, ProjectError, ProjectTransaction,
};
use project2::server_messages::{
    finish_setup, RegisterOptions, Registration, ServerMessage, ServerReply,
};
use project2::map::SortedSet;
use project2::watch::{GlobPattern, WATCHED_FILES_METHOD};
use project2::workspace_edits::WorkspaceEdit;
use project2::ids::{
    EntityId, LanguageServerId, LanguageServerName, ProjectEntryId, WorktreeId,
};
use project2::map::SortedMap;
use project2::model::{
    AppContext, Buffer, Entry, File, FormatOnSave, Formatter, Language, LanguageServer,
    LanguageSettings, LineEnding, LspAdapter, SavedState, TextDocumentSync, TextSnapshot, Worktree,
};
use project2::path::{Component, Path};
use project2::project::{LanguageServerState, Project};
use std::sync::Arc;

fn path(text: &str) -> Path {
    let mut components = Vec::new();
    if text.starts_with('/') {
        components.push(Component::RootDir);
    }
    for part in text.split('/') {
        match part {
            "" => {}
            "." => components.push(Component::CurDir),
            ".." => components.push(Component::ParentDir),
            name => components.push(Component::Normal(name.to_string())),
        }
    }
    Path::from_components(components)
}

fn settings(enable_language_server: bool) -> Arc<LanguageSettings> {
    Arc::new(LanguageSettings {
        enable_language_server,
        formatter: Formatter::Auto,
        format_on_save: FormatOnSave::On,
        remove_trailing_whitespace_on_save: true,
        ensure_final_newline_on_save: true,
        tab_size: 4,
    })
}

fn adapter(name: &str) -> LspAdapter {
    LspAdapter {
        name: LanguageServerName(name.to_string()),
        disk_based_diagnostics_progress_token: None,
        disk_based_diagnostic_sources: vec![],
        language_ids: vec![("Rust".to_string(), "rust".to_string())],
        initialization_options: None,
        prettier_plugins: vec![],
        can_be_reinstalled: true,
        reinstall_attempt_count: 0,
    }
}

fn language(id: u64, name: &str, adapters: Vec<LspAdapter>) -> Arc<Language> {
    Arc::new(Language {
        id,
        name: name.to_string(),
        prettier_parser_name: None,
        lsp_adapters: adapters.into_iter().map(Arc::new).collect(),
    })
}

fn server(id: usize, sync: Option<TextDocumentSync>) -> LanguageServer {
    LanguageServer {
        server_id: LanguageServerId(id),
        name: format!("server {}", id),
        root_path: path("/root"),
        text_document_sync: sync,
        has_completion_provider: true,
        can_resolve_completions: false,
        completion_trigger_characters: None,
        document_formatting_provider: None,
        document_range_formatting_provider: None,
        inlay_hints_can_be_resolved: false,
    }
}

fn running(language: &Arc<Language>, server: LanguageServer) -> LanguageServerState {
    LanguageServerState::Running {
        language: language.clone(),
        adapter: language.lsp_adapters[0].clone(),
        server: Arc::new(server),
        watched_paths: SortedMap::new(),
        simulate_disk_based_diagnostics_completion: false,
    }
}

fn entry(id: usize, name: &str, is_file: bool) -> Entry {
    Entry { id: ProjectEntryId(id), path: path(name), mtime: 1, is_file, is_ignored: false }
}

fn worktree(entity: u64, id: usize, root: &str, entries: Vec<Entry>) -> Worktree {
    Worktree {
        entity_id: EntityId(entity),
        id: WorktreeId(id),
        is_local: true,
        is_visible: true,
        root_name: path(root).file_name().unwrap_or("".to_string()),
        abs_path: path(root),
        entries,
        diagnostic_summaries: vec![],
        local_settings: vec![],
    }
}

fn file(tree: &Worktree, name: &str, entry_id: usize) -> File {
    File {
        worktree: tree.entity_id,
        worktree_id: tree.id,
        path: path(name),
        abs_path: tree.abs_path.join(&path(name)),
        entry_id: ProjectEntryId(entry_id),
        mtime: 1,
        is_local: tree.is_local,
        is_deleted: false,
    }
}

fn buffer(
    entity: u64,
    remote_id: u64,
    file: Option<File>,
    language: Option<&Arc<Language>>,
    text: &str,
) -> Buffer {
    Buffer {
        entity_id: EntityId(entity),
        remote_id,
        file,
        language: language.cloned(),
        is_plain_text: false,
        contains_unknown_injections: false,
        is_dirty: false,
        snapshot: TextSnapshot { version: 1, text: Arc::new(text.to_string()) },
        saved: SavedState {
            version: 1,
            fingerprint: 0,
            line_ending: LineEnding::Unix,
            mtime: 1,
        },
        diff_base: None,
        settings: settings(true),
    }
}

fn context(buffers: Vec<Buffer>, worktrees: Vec<Worktree>) -> AppContext {
    AppContext { buffers, worktrees, language_settings: vec![], default_settings: settings(true) }
}

fn project() -> Project {
    Project::local_with_nonce(42, SortedMap::new(), false)
}

fn target(buffer: u64, with_server: bool) -> FormatTarget {
    FormatTarget {
        buffer: EntityId(buffer),
        remote_id: buffer,
        document: Some(path("/root/a.rs")),
        server: if with_server { Some(Arc::new(server(7, None))) } else { None },
    }
}

fn formatted_by(formatter: Formatter) -> Arc<LanguageSettings> {
    Arc::new(LanguageSettings {
        enable_language_server: true,
        formatter,
        format_on_save: FormatOnSave::On,
        remove_trailing_whitespace_on_save: true,
        ensure_final_newline_on_save: false,
        tab_size: 2,
    })
}

fn advance(run: &mut FormatRun, event: FormatEvent) {
    assert!(run.fits(&event));
    run.advance(event);
}

#[test]
fn a_buffer_is_formatted_step_by_step() {
    let mut run = FormatRun::new(vec![target(1, true)], FormatTrigger::Save, true);
    assert!(matches!(run.action(), FormatAction::ReadSettings { buffer: EntityId(1) }));
    advance(&mut run, FormatEvent::SettingsRead(formatted_by(Formatter::LanguageServer)));
    assert!(matches!(
        run.action(),
        FormatAction::FormatWhitespace {
            buffer: EntityId(1),
            remove_trailing_whitespace: true,
            ensure_final_newline: false,
        }
    ));
    assert!(!run.fits(&FormatEvent::Formatted { has_operation: true }));
    advance(&mut run, FormatEvent::WhitespaceFormatted(Some(4)));
    assert!(matches!(
        run.action(),
        FormatAction::FormatViaLsp { buffer: EntityId(1), tab_size: 2, .. }
    ));
    advance(&mut run, FormatEvent::Formatted { has_operation: true });
    assert!(matches!(run.action(), FormatAction::ReadLastTransaction { .. }));
    advance(&mut run, FormatEvent::LastTransaction(Some(4)));
    assert!(matches!(
        run.action(),
        FormatAction::Close {
            buffer: EntityId(1),
            outcome: FormatOutcome { is_applied: true, grouped_with: Some(4) },
            forget: false,
        }
    ));
    advance(&mut run, FormatEvent::Closed(Some(9)));
    assert!(matches!(run.action(), FormatAction::Finish));
    assert!(!run.fits(&FormatEvent::Failed));
    let made = run.finish().unwrap();
    assert_eq!(made.0.get(&EntityId(1)), Some(&9));
}

#[test]
fn the_server_formats_where_there_is_no_prettier() {
    let mut run = FormatRun::new(vec![target(1, true)], FormatTrigger::Manual, false);
    advance(&mut run, FormatEvent::SettingsRead(formatted_by(Formatter::Auto)));
    advance(&mut run, FormatEvent::WhitespaceFormatted(None));
    assert!(matches!(run.action(), FormatAction::FormatViaPrettier { .. }));
    advance(&mut run, FormatEvent::NoPrettier);
    assert!(matches!(run.action(), FormatAction::FormatViaLsp { .. }));
    let mut run = FormatRun::new(vec![target(1, false)], FormatTrigger::Manual, false);
    advance(&mut run, FormatEvent::SettingsRead(formatted_by(Formatter::Auto)));
    advance(&mut run, FormatEvent::WhitespaceFormatted(None));
    advance(&mut run, FormatEvent::NoPrettier);
    assert!(matches!(run.action(), FormatAction::ReadLastTransaction { .. }));
    advance(&mut run, FormatEvent::LastTransaction(None));
    assert!(matches!(
        run.action(),
        FormatAction::Close { outcome: FormatOutcome { is_applied: false, .. }, forget: true, .. }
    ));
}

#[test]
fn a_failure_ends_the_run() {
    let targets = vec![target(1, true), target(2, true)];
    let mut run = FormatRun::new(targets, FormatTrigger::Save, true);
    advance(&mut run, FormatEvent::SettingsRead(formatted_by(Formatter::LanguageServer)));
    advance(&mut run, FormatEvent::Failed);
    assert!(matches!(run.action(), FormatAction::Fail));
    assert!(run.finish().is_none());
}

#[test]
fn an_edited_buffer_keeps_its_edits() {
    let mut run = FormatRun::new(vec![target(1, true)], FormatTrigger::Save, true);
    advance(&mut run, FormatEvent::SettingsRead(formatted_by(Formatter::LanguageServer)));
    advance(&mut run, FormatEvent::WhitespaceFormatted(Some(4)));
    advance(&mut run, FormatEvent::Formatted { has_operation: true });
    advance(&mut run, FormatEvent::LastTransaction(Some(5)));
    assert!(matches!(
        run.action(),
        FormatAction::Close {
            outcome: FormatOutcome { is_applied: false, grouped_with: None },
            ..
        }
    ));
}

/// A project that has the server 7 running for Rust.
fn scene() -> (Project, AppContext, Arc<LspAdapter>) {
    let language = language(1, "Rust", vec![adapter("rust-analyzer")]);
    let tree = worktree(1, 10, "/root", vec![]);
    let mut p = project();
    let mut out = vec![];
    p.add_worktree(&tree, &mut out);
    let id = LanguageServerId(7);
    p.language_servers.insert(id, running(&language, server(7, None)));
    p.language_server_statuses.insert(
        id,
        LanguageServerStatus {
            name: "rust-analyzer".to_string(),
            pending_work: SortedMap::new(),
            has_pending_diagnostic_updates: false,
            progress_tokens: SortedSet::new(),
        },
    );
    (p, context(vec![], vec![tree]), language.lsp_adapters[0].clone())
}

#[test]
fn a_server_is_answered() {
    let (mut p, cx, a) = scene();
    let id = LanguageServerId(7);
    let mut out = vec![];
    let message = ServerMessage::WorkspaceConfiguration {
        configuration: "{\"a\":1}".to_string(),
        sections: vec![Some("a".to_string())],
    };
    assert!(matches!(
        p.handle_server_message(id, &a, message, &cx, &mut out),
        ServerReply::Configuration(answers) if answers == vec!["1".to_string()]
    ));
    let params = || PublishDiagnosticsParams {
        uri: "file:///root/a.rs".to_string(),
        diagnostics: vec![],
        version: None,
    };
    let message = ServerMessage::PublishDiagnostics { document: None, params: params() };
    assert!(matches!(
        p.handle_server_message(id, &a, message, &cx, &mut out),
        ServerReply::Diagnostics(Err(ProjectError::UriIsNotAFile))
    ));
    let document = Some(path("/root/a.rs"));
    let message = ServerMessage::PublishDiagnostics { document, params: params() };
    assert!(matches!(
        p.handle_server_message(id, &a, message, &cx, &mut out),
        ServerReply::Diagnostics(Ok((target, entries)))
            if target.worktree == EntityId(1) && entries.is_empty()
    ));
    assert!(out.is_empty());
}

#[test]
fn the_work_of_a_server_is_followed() {
    let (mut p, cx, a) = scene();
    let id = LanguageServerId(7);
    let mut out = vec![];
    let token = || ProgressToken::Text("t".to_string());
    let create = ServerMessage::WorkDoneProgressCreate { token: token() };
    assert!(matches!(
        p.handle_server_message(id, &a, create, &cx, &mut out),
        ServerReply::Done
    ));
    let begin = ServerMessage::Progress {
        token: token(),
        progress: WorkDoneProgress::Begin { message: None, percentage: Some(3) },
        now: 8,
    };
    p.handle_server_message(id, &a, begin, &cx, &mut out);
    let work = &p.language_server_statuses.get(&id).unwrap().pending_work;
    assert_eq!(work.get(&"t".to_string()).unwrap().last_update_at, 8);
    out.clear();
    p.client_state = Some(ProjectClientState::Local { remote_id: 3 });
    let refresh = |connected| ServerMessage::InlayHintRefresh { connected };
    assert!(matches!(
        p.handle_server_message(id, &a, refresh(false), &cx, &mut out),
        ServerReply::Refreshed(Err(ProjectError::Disconnected))
    ));
    assert_eq!(out, vec![Effect::Emit(Event::RefreshInlayHints)]);
    out.clear();
    assert!(matches!(
        p.handle_server_message(id, &a, refresh(true), &cx, &mut out),
        ServerReply::Refreshed(Ok(()))
    ));
    assert_eq!(
        out,
        vec![
            Effect::Emit(Event::RefreshInlayHints),
            Effect::Send(Message::RefreshInlayHints { project_id: 3 }),
        ]
    );
}

#[test]
fn a_server_has_edits_made() {
    let (mut p, cx, a) = scene();
    let id = LanguageServerId(7);
    let mut out = vec![];
    let ask = || ServerMessage::ApplyWorkspaceEdit {
        edit: WorkspaceEdit {
            changes: Some(vec![(Some(path("/root/a.rs")), vec![])]),
            document_changes: None,
        },
    };
    match p.handle_server_message(id, &a, ask(), &cx, &mut out) {
        ServerReply::Edit(Ok(mut run)) => {
            assert!(matches!(
                run.advance(EditEvent::Started),
                Some(EditAction::Edit { edit, push_to_history: true })
                    if edit.document == Some(path("/root/a.rs"))
            ));
        }
        _ => panic!("the edit is made"),
    }
    assert!(matches!(
        p.handle_server_message(LanguageServerId(8), &a, ask(), &cx, &mut out),
        ServerReply::Edit(Err(ProjectError::NoSuchServer))
    ));
    let mut transaction = ProjectTransaction(SortedMap::new());
    transaction.enter(EntityId(1), Some(5));
    let made = ServerMessage::WorkspaceEditMade { transaction: Some(transaction) };
    assert!(matches!(
        p.handle_server_message(id, &a, made, &cx, &mut out),
        ServerReply::Applied
    ));
    assert_eq!(p.take_last_workspace_edit(id).0.get(&EntityId(1)), Some(&5));
}

#[test]
fn a_server_registers_what_it_watches() {
    let (mut p, cx, a) = scene();
    let id = LanguageServerId(7);
    let registration = |method: &str, options: RegisterOptions| Registration {
        method: method.to_string(),
        options,
    };
    let watchers = |text: &str| {
        RegisterOptions::Watchers(vec![GlobPattern::Text(text.to_string())])
    };
    let mut out = vec![];
    let registrations = vec![
        registration("textDocument/didSave", RegisterOptions::Invalid),
        registration(WATCHED_FILES_METHOD, RegisterOptions::Missing),
        registration(WATCHED_FILES_METHOD, watchers("/root/*.rs")),
        registration(WATCHED_FILES_METHOD, RegisterOptions::Invalid),
        registration(WATCHED_FILES_METHOD, watchers("/root/*.md")),
    ];
    let message = ServerMessage::RegisterCapability { registrations };
    assert!(matches!(
        p.handle_server_message(id, &a, message, &cx, &mut out),
        ServerReply::Registered(Err(ProjectError::InvalidOptions))
    ));
    assert_eq!(
        out,
        vec![
            Effect::ScanPathPrefix { worktree: EntityId(1), prefix: "".to_string() },
            Effect::Notify,
        ]
    );
    let message = ServerMessage::RegisterCapability { registrations: vec![] };
    assert!(matches!(
        p.handle_server_message(id, &a, message, &cx, &mut out),
        ServerReply::Registered(Ok(()))
    ));
}

#[test]
fn a_new_server_is_told_its_configuration() {
    let mut out = vec![];
    let settings = Arc::new("{\"a\":1}".to_string());
    let server = Arc::new(server(7, None));
    let taken_up = finish_setup(Some(server), settings.clone(), &mut out).unwrap();
    assert_eq!(taken_up.server_id, LanguageServerId(7));
    assert_eq!(
        out,
        vec![Effect::NotifyServer(
            LanguageServerId(7),
            ServerNotification::DidChangeConfiguration { settings: settings.clone() },
        )]
    );
    assert_eq!(
        finish_setup(None, settings, &mut out).err(),
        Some(ProjectError::InitializationFailed)
    );
    assert_eq!(out.len(), 1);
}
