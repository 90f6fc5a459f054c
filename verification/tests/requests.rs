#![allow(dead_code)]

use project2::diagnostics::TextRange;
use project2::edits::{Anchor, Bias, LspEdit, TextEdit};
use project2::edit_run::{EditAction, EditEvent, EditRun};
use project2::effects::{Effect, Event};
use project2::formatting::{
    format_outcome, format_step, format_via_external_command, format_via_lsp, FormatPlan,
    FormatStep, FormatTrigger, LspFormatting,
};
use project2::handlers::{
    handle_get_project_symbols, ActionMessage, ReloadedMessage, SavedMessage,
};
use project2::map::SortedSet;
use project2::model::{PointUtf16, ProjectPath, Provider};
use project2::prettier::{
    clears_cache, packages_to_install, prettier_name, PrettierLookup,
};
use project2::project::{
    OpenBuffer, ProjectClientState, ProjectError, ProjectTransaction,
};
use project2::requests::{
    additional_edits, code_action_effect, code_action_step, find_code_action, gather,
    renew_data, section_response, workspace_configuration, AdditionalEdits, CodeActionEffect,
    CodeActionStep, CompletionSource, HintResolver, LanguageServerToQuery, LspRequest,
    OnTypeFormatter, RequestTarget,
};
use project2::symbols::{
    deserialize_symbol, serialize_symbol, LspSymbol, Symbol, SymbolBuffer, SymbolSource,
};
use project2::workspace_edits::{
    deserialize_edits, deserialize_workspace_edit, file_actions, DeleteOptions, DocumentChanges,
    DocumentEdit, DocumentOperation, FileAction, OverwriteOptions, WorkspaceEdit,
};
use project2::ids::{
    EntityId, LanguageServerId, LanguageServerName, ProjectEntryId, WorktreeId,
};
use project2::map::SortedMap;
use project2::model::{
    AppContext, Buffer, Entry, File, FormatOnSave, Formatter, Language, LanguageServer,
    LanguageSettings, LineEnding, LspAdapter, SavedState, TextDocumentSync, TextSnapshot, Worktree,
};
use project2::path::{Component, Path};
use project2::project::{LanguageServerState, Project};
use std::sync::Arc;

fn path(text: &str) -> Path {
    let mut components = Vec::new();
    if text.starts_with('/') {
        components.push(Component::RootDir);
    }
    for part in text.split('/') {
        match part {
            "" => {}
            "." => components.push(Component::CurDir),
            ".." => components.push(Component::ParentDir),
            name => components.push(Component::Normal(name.to_string())),
        }
    }
    Path::from_components(components)
}

fn settings(enable_language_server: bool) -> Arc<LanguageSettings> {
    Arc::new(LanguageSettings {
        enable_language_server,
        formatter: Formatter::Auto,
        format_on_save: FormatOnSave::On,
        remove_trailing_whitespace_on_save: true,
        ensure_final_newline_on_save: true,
        tab_size: 4,
    })
}

fn adapter(name: &str) -> LspAdapter {
    LspAdapter {
        name: LanguageServerName(name.to_string()),
        disk_based_diagnostics_progress_token: None,
        disk_based_diagnostic_sources: vec![],
        language_ids: vec![("Rust".to_string(), "rust".to_string())],
        initialization_options: None,
        prettier_plugins: vec![],
        can_be_reinstalled: true,
        reinstall_attempt_count: 0,
    }
}

fn language(id: u64, name: &str, adapters: Vec<LspAdapter>) -> Arc<Language> {
    Arc::new(Language {
        id,
        name: name.to_string(),
        prettier_parser_name: None,
        lsp_adapters: adapters.into_iter().map(Arc::new).collect(),
    })
}

fn server(id: usize, sync: Option<TextDocumentSync>) -> LanguageServer {
    LanguageServer {
        server_id: LanguageServerId(id),
        name: format!("server {}", id),
        root_path: path("/root"),
        text_document_sync: sync,
        has_completion_provider: true,
        can_resolve_completions: false,
        completion_trigger_characters: None,
        document_formatting_provider: None,
        document_range_formatting_provider: None,
        inlay_hints_can_be_resolved: false,
    }
}

fn running(language: &Arc<Language>, server: LanguageServer) -> LanguageServerState {
    LanguageServerState::Running {
        language: language.clone(),
        adapter: language.lsp_adapters[0].clone(),
        server: Arc::new(server),
        watched_paths: SortedMap::new(),
        simulate_disk_based_diagnostics_completion: false,
    }
}

fn entry(id: usize, name: &str, is_file: bool) -> Entry {
    Entry { id: ProjectEntryId(id), path: path(name), mtime: 1, is_file, is_ignored: false }
}

fn worktree(entity: u64, id: usize, root: &str, entries: Vec<Entry>) -> Worktree {
    Worktree {
        entity_id: EntityId(entity),
        id: WorktreeId(id),
        is_local: true,
        is_visible: true,
        root_name: path(root).file_name().unwrap_or("".to_string()),
        abs_path: path(root),
        entries,
        diagnostic_summaries: vec![],
        local_settings: vec![],
    }
}

fn file(tree: &Worktree, name: &str, entry_id: usize) -> File {
    File {
        worktree: tree.entity_id,
        worktree_id: tree.id,
        path: path(name),
        abs_path: tree.abs_path.join(&path(name)),
        entry_id: ProjectEntryId(entry_id),
        mtime: 1,
        is_local: tree.is_local,
        is_deleted: false,
    }
}

fn buffer(
    entity: u64,
    remote_id: u64,
    file: Option<File>,
    language: Option<&Arc<Language>>,
    text: &str,
) -> Buffer {
    Buffer {
        entity_id: EntityId(entity),
        remote_id,
        file,
        language: language.cloned(),
        is_plain_text: false,
        contains_unknown_injections: false,
        is_dirty: false,
        snapshot: TextSnapshot { version: 1, text: Arc::new(text.to_string()) },
        saved: SavedState {
            version: 1,
            fingerprint: 0,
            line_ending: LineEnding::Unix,
            mtime: 1,
        },
        diff_base: None,
        settings: settings(true),
    }
}

fn context(buffers: Vec<Buffer>, worktrees: Vec<Worktree>) -> AppContext {
    AppContext { buffers, worktrees, language_settings: vec![], default_settings: settings(true) }
}

fn project() -> Project {
    Project::local_with_nonce(42, SortedMap::new(), false)
}

fn name() -> LanguageServerName {
    LanguageServerName("rust-analyzer".to_string())
}

fn guest() -> Option<ProjectClientState> {
    Some(ProjectClientState::Remote { sharing_has_stopped: false, remote_id: 7, replica_id: 3 })
}

fn point(row: u32, column: u32) -> PointUtf16 {
    PointUtf16 { row, column }
}

fn range() -> TextRange {
    TextRange { start: point(1, 2), end: point(3, 4) }
}

fn anchor(offset: usize) -> Anchor {
    Anchor { offset, bias: Bias::Left }
}

/// A project whose worktree has the given server running for Rust, and one open buffer.
fn scene_with(server: LanguageServer) -> (Project, AppContext) {
    let language = language(1, "Rust", vec![adapter("rust-analyzer")]);
    let tree = worktree(1, 10, "/root", vec![entry(1, "", false), entry(2, "a.rs", true)]);
    let b = buffer(100, 5, Some(file(&tree, "a.rs", 2)), Some(&language), "text");
    let mut p = project();
    let mut out = vec![];
    p.add_worktree(&tree, &mut out);
    p.language_server_ids.insert((WorktreeId(10), name()), server.server_id);
    p.language_servers.insert(server.server_id, running(&language, server));
    p.opened_buffers.insert(5, OpenBuffer::Strong(EntityId(100)));
    (p, context(vec![b], vec![tree]))
}

fn scene() -> (Project, AppContext) {
    scene_with(server(7, None))
}

#[test]
fn the_primary_server_is_asked() {
    let (mut p, mut cx) = scene();
    let query = p.definition(&cx.buffers[0], point(0, 1));
    assert_eq!(query.request, LspRequest::Definition { position: point(0, 1) });
    assert!(matches!(
        query.target,
        RequestTarget::Server { ref server, ref document }
            if server.server_id.0 == 7 && *document == path("/root/a.rs")
    ));
    let hover = p.hover(&cx.buffers[0], point(0, 1));
    assert_eq!(hover.request, LspRequest::Hover { position: point(0, 1) });
    let rename = p.perform_rename(&cx.buffers[0], point(0, 1), "n".to_string(), true);
    assert_eq!(
        rename.request,
        LspRequest::PerformRename {
            position: point(0, 1),
            new_name: "n".to_string(),
            push_to_history: true,
        }
    );
    let other = LanguageServerToQuery::Other(LanguageServerId(8));
    assert!(matches!(p.request_lsp(&cx.buffers[0], other), RequestTarget::Nobody));
    p.client_state = guest();
    assert!(matches!(
        p.request_lsp(&cx.buffers[0], LanguageServerToQuery::Primary),
        RequestTarget::Host { project_id: 7 }
    ));
    assert_eq!(p.check_proto_response(), Ok(()));
    p.client_state =
        Some(ProjectClientState::Remote { sharing_has_stopped: true, remote_id: 7, replica_id: 3 });
    assert_eq!(p.check_proto_response(), Err(ProjectError::Disconnected));
    p.client_state = None;
    cx.buffers[0].file = None;
    assert!(matches!(
        p.references(&cx.buffers[0], point(0, 1)).target,
        RequestTarget::Nobody
    ));
}

#[test]
fn completions_come_from_all_servers_that_may() {
    let (mut p, cx) = scene();
    let b = &cx.buffers[0];
    assert!(matches!(
        p.completions(b, &vec![]),
        CompletionSource::Servers(ids) if ids == vec![LanguageServerId(7)]
    ));
    assert!(matches!(
        p.completions(b, &vec![name()]),
        CompletionSource::Servers(ids) if ids.is_empty()
    ));
    p.client_state = guest();
    assert!(matches!(p.completions(b, &vec![]), CompletionSource::Host { project_id: 7 }));
    assert_eq!(gather(vec![Some(vec![1, 2]), None, Some(vec![3])]), vec![1, 2, 3]);
}

#[test]
fn edits_that_overlap_with_the_completion_are_left_out() {
    let edit = |a: usize, b: usize| TextEdit {
        start: anchor(a),
        end: anchor(b),
        new_text: "x".to_string(),
    };
    let edits = vec![
        edit(0, 2),
        edit(5, 6),
        edit(8, 12),
        edit(4, 12),
        edit(2, 6),
        edit(2, 12),
        edit(10, 12),
        edit(3, 4),
        edit(11, 12),
    ];
    let kept = additional_edits(&edits, anchor(4), anchor(10));
    assert_eq!(
        kept.iter().map(|e| (e.start.offset, e.end.offset)).collect::<Vec<_>>(),
        vec![(0, 2), (3, 4), (11, 12)]
    );
    let kept = additional_edits(&vec![edit(0, 1), edit(3, 7)], anchor(5), anchor(10));
    assert_eq!(kept.len(), 1);
    assert_eq!(kept[0].start, anchor(0));
    // At an empty stretch even what ends there is left out.
    assert!(additional_edits(&vec![edit(3, 5)], anchor(5), anchor(5)).is_empty());
}

#[test]
fn additional_edits_may_have_to_be_asked_for() {
    let (p, cx) = scene();
    assert!(matches!(
        p.apply_additional_edits_for_completion(&cx.buffers[0], LanguageServerId(7)),
        Ok(AdditionalEdits::AtHand(_))
    ));
    assert!(matches!(
        p.apply_additional_edits_for_completion(&cx.buffers[0], LanguageServerId(8)),
        Ok(AdditionalEdits::Nobody)
    ));
    let mut s = server(7, None);
    s.can_resolve_completions = true;
    let (mut p, cx) = scene_with(s);
    assert!(matches!(
        p.apply_additional_edits_for_completion(&cx.buffers[0], LanguageServerId(7)),
        Ok(AdditionalEdits::Resolve(_))
    ));
    p.client_state = guest();
    assert!(matches!(
        p.apply_additional_edits_for_completion(&cx.buffers[0], LanguageServerId(7)),
        Ok(AdditionalEdits::Host { project_id: 7, buffer_id: 5 })
    ));
}

#[test]
fn a_code_action_is_brought_up_to_date() {
    let (p, cx) = scene();
    let data = Some("{\"codeActionParams\":{\"range\":1,\"x\":2}}".to_string());
    let renewed = "{\"codeActionParams\":{\"range\":[3],\"x\":2}}".to_string();
    assert_eq!(renew_data(&data, "[3]"), Some(renewed.clone()));
    assert_eq!(renew_data(&Some("{\"codeActionParams\":{}}".to_string()), "[3]"), None);
    assert_eq!(renew_data(&None, "[3]"), None);
    assert!(matches!(
        p.apply_code_action(&cx.buffers[0], LanguageServerId(7), &data, "[3]"),
        Ok(CodeActionStep::Resolve { data: d, .. }) if d == renewed
    ));
    assert!(matches!(
        p.apply_code_action(&cx.buffers[0], LanguageServerId(7), &None, "[3]"),
        Ok(CodeActionStep::Refresh { .. })
    ));
    assert!(matches!(
        p.apply_code_action(&cx.buffers[0], LanguageServerId(8), &None, "[3]"),
        Ok(CodeActionStep::Nothing)
    ));
    assert!(matches!(
        code_action_step(Arc::new(server(7, None)), None),
        CodeActionStep::Refresh { .. }
    ));
}

#[test]
fn an_outdated_code_action_is_refused() {
    let titles = vec!["a".to_string(), "b".to_string(), "b".to_string()];
    assert_eq!(find_code_action(&titles, &"b".to_string()), Ok(1));
    assert_eq!(
        find_code_action(&titles, &"c".to_string()),
        Err(ProjectError::CodeActionIsOutdated)
    );
    assert_eq!(code_action_effect(false, true, true), CodeActionEffect::Edit);
    assert_eq!(code_action_effect(false, false, true), CodeActionEffect::Command);
    assert_eq!(code_action_effect(false, false, false), CodeActionEffect::Nothing);
}

#[test]
fn a_command_returns_its_own_edit() {
    let (mut p, _) = scene();
    let id = LanguageServerId(7);
    let made = |n: u64| {
        let mut t = ProjectTransaction(SortedMap::new());
        t.enter(EntityId(100), Some(n));
        Some(t)
    };
    p.on_lsp_workspace_edit(id, made(1));
    p.take_last_workspace_edit(id);
    p.on_lsp_workspace_edit(id, made(2));
    p.on_lsp_workspace_edit(id, None);
    let edit = p.take_last_workspace_edit(id);
    assert_eq!(edit.0.get(&EntityId(100)), Some(&2));
    assert!(p.take_last_workspace_edit(id).0.is_empty());
}

#[test]
fn a_buffer_is_formatted_as_it_is_typed() {
    let (mut p, cx) = scene();
    let b = &cx.buffers[0];
    assert_eq!(p.apply_on_type_formatting(b), Ok(OnTypeFormatter::Local));
    assert!(p.buffers_being_formatted.contains(&5));
    p.finish_on_type_formatting(b, OnTypeFormatter::Local);
    assert!(p.buffers_being_formatted.is_empty());
    p.client_state = guest();
    assert_eq!(
        p.apply_on_type_formatting(b),
        Ok(OnTypeFormatter::Host { project_id: 7, buffer_id: 5 })
    );
}

#[test]
fn typing_does_not_disturb_formatting() {
    let (mut p, cx) = scene();
    let b = &cx.buffers[0];
    p.buffers_being_formatted.insert(5);
    assert_eq!(p.apply_on_type_formatting(b), Ok(OnTypeFormatter::Nobody));
    p.finish_on_type_formatting(b, OnTypeFormatter::Nobody);
    assert!(p.buffers_being_formatted.contains(&5));
    assert_eq!(
        p.handle_on_type_formatting(5, Some(anchor(1)), &cx),
        Ok(OnTypeFormatter::Nobody)
    );
    p.buffers_being_formatted.remove(&5);
    assert_eq!(
        p.handle_on_type_formatting(5, Some(anchor(1)), &cx),
        Ok(OnTypeFormatter::Local)
    );
    assert_eq!(p.apply_on_type_formatting(b), Ok(OnTypeFormatter::Nobody));
}

#[test]
fn hints_are_completed_by_servers_that_can() {
    let (p, cx) = scene();
    let id = LanguageServerId(7);
    assert!(matches!(p.resolve_inlay_hint(&cx.buffers[0], id), Ok(HintResolver::Nobody)));
    let mut s = server(7, None);
    s.inlay_hints_can_be_resolved = true;
    let (mut p, cx) = scene_with(s);
    assert!(matches!(p.resolve_inlay_hint(&cx.buffers[0], id), Ok(HintResolver::Server(_))));
    p.client_state = guest();
    assert!(matches!(
        p.resolve_inlay_hint(&cx.buffers[0], id),
        Ok(HintResolver::Host { project_id: 7, buffer_id: 5, language_server_id: 7 })
    ));
}

#[test]
fn sections_of_the_configuration_are_answered() {
    let configuration = "{\"a\":{\"b\":1},\"c\":2}".to_string();
    let sections = vec![Some("a".to_string()), Some("x".to_string()), None];
    assert_eq!(
        workspace_configuration(&configuration, &sections),
        vec!["{\"b\":1}".to_string(), "null".to_string(), configuration.clone()]
    );
    assert_eq!(section_response(None), "null");
    assert_eq!(section_response(Some("1".to_string())), "1");
}

fn reported(at: &str) -> LspSymbol {
    LspSymbol { name: "main".to_string(), kind: 12, abs_path: Some(path(at)), range: range() }
}

fn placed(p: &Project, cx: &AppContext, at: &str) -> Symbol {
    match p.symbols(Arc::new("main".to_string()), cx) {
        SymbolSource::Servers(requests) => {
            assert_eq!(requests.len(), 1);
            assert_eq!(*requests[0].query, "main");
            let mut all = p.place_symbols(&requests[0], &vec![reported(at)], cx);
            assert_eq!(all.len(), 1);
            all.remove(0)
        }
        _ => panic!("the servers are asked"),
    }
}

#[test]
fn symbols_are_placed_and_signed() {
    let (p, cx) = scene();
    let inside = placed(&p, &cx, "/root/a.rs");
    assert_eq!(
        inside.path,
        ProjectPath { worktree_id: WorktreeId(10), path: path("a.rs") }
    );
    assert_eq!(inside.signature, p.symbol_signature(&inside.path));
    assert_eq!(inside.signature.len(), 32);
    assert_eq!(p.check_symbol(&inside), Ok(()));
    let outside = placed(&p, &cx, "/std/lib.rs");
    assert_eq!(outside.path.path, path("../std/lib.rs"));
    assert_ne!(outside.signature, inside.signature);
    let mut forged = placed(&p, &cx, "/root/a.rs");
    forged.path.path = path("../../etc/passwd");
    assert_eq!(p.check_symbol(&forged), Err(ProjectError::InvalidSymbolSignature));
}

#[test]
fn a_signature_is_a_digest() {
    let p = Project::local_with_nonce(0, SortedMap::new(), false);
    let at = ProjectPath { worktree_id: WorktreeId(0), path: path("") };
    // The digest of 24 zero bytes.
    let expected: Vec<u8> = vec![
        0x9d, 0x90, 0x8e, 0xcf, 0xb6, 0xb2, 0x56, 0xde, 0xf8, 0xb4, 0x9a, 0x7c, 0x50, 0x4e, 0x6c,
        0x88, 0x9c, 0x4b, 0x0e, 0x41, 0xfe, 0x6c, 0xe3, 0xe0, 0x18, 0x63, 0xdd, 0x7b, 0x61, 0xa2,
        0x0a, 0xa0,
    ];
    assert_eq!(p.symbol_signature(&at), expected);
}

#[test]
fn a_symbol_survives_the_wire() {
    let (p, cx) = scene();
    let symbol = placed(&p, &cx, "/root/a.rs");
    let back = deserialize_symbol(serialize_symbol(&symbol), Some("main".to_string())).unwrap();
    assert_eq!(back, symbol);
    let mut message = serialize_symbol(&symbol);
    message.start = None;
    assert_eq!(
        deserialize_symbol(message, None).err(),
        Some(ProjectError::InvalidSymbolPosition)
    );
    let unlabelled = deserialize_symbol(serialize_symbol(&symbol), None).unwrap();
    assert_eq!(unlabelled.label, "main");
    assert_eq!(handle_get_project_symbols(&vec![back]).len(), 1);
}

#[test]
fn the_buffer_of_a_symbol_is_opened() {
    let (mut p, cx) = scene();
    let symbol = placed(&p, &cx, "/root/a.rs");
    assert!(matches!(
        p.open_buffer_for_symbol(&symbol, &cx),
        Ok(SymbolBuffer::Local { ref document, server_id: LanguageServerId(7) })
            if *document == path("/root/a.rs")
    ));
    let message = serialize_symbol(&symbol);
    assert!(p.handle_open_buffer_for_symbol(Some(message), None, &cx).is_ok());
    assert_eq!(
        p.handle_open_buffer_for_symbol(None, None, &cx).err(),
        Some(ProjectError::MissingSymbol)
    );
    let mut forged = serialize_symbol(&symbol);
    forged.path = path("b.rs");
    assert_eq!(
        p.handle_open_buffer_for_symbol(Some(forged), None, &cx).err(),
        Some(ProjectError::InvalidSymbolSignature)
    );
    p.language_server_ids.clear();
    assert_eq!(
        p.open_buffer_for_symbol(&symbol, &cx).err(),
        Some(ProjectError::NoSuchServer)
    );
    p.client_state = guest();
    assert!(matches!(
        p.open_buffer_for_symbol(&symbol, &cx),
        Ok(SymbolBuffer::Host { project_id: 7 })
    ));
}

#[test]
fn the_host_answers_requests() {
    let (mut p, cx) = scene();
    assert!(matches!(
        p.handle_lsp_command(5, &cx),
        Ok(RequestTarget::Server { .. })
    ));
    assert_eq!(p.handle_lsp_command(6, &cx).err(), Some(ProjectError::NoSuchBuffer(6)));
    assert_eq!(
        p.handle_apply_additional_edits_for_completion(5, None, &cx).err(),
        Some(ProjectError::InvalidCompletion)
    );
    assert_eq!(
        p.handle_apply_code_action(5, None, &cx).err(),
        Some(ProjectError::InvalidAction)
    );
    let action = ActionMessage {
        server_id: LanguageServerId(7),
        data: None,
        range: "{}".to_string(),
    };
    assert!(matches!(
        p.handle_apply_code_action(5, Some(&action), &cx),
        Ok(CodeActionStep::Refresh { .. })
    ));
    assert_eq!(
        p.handle_on_type_formatting(5, None, &cx).err(),
        Some(ProjectError::InvalidPosition)
    );
    assert_eq!(
        p.handle_inlay_hints(5, None, Some(anchor(1)), &cx).err(),
        Some(ProjectError::MissingRangeStart)
    );
    assert_eq!(
        p.handle_inlay_hints(5, Some(anchor(1)), None, &cx).err(),
        Some(ProjectError::MissingRangeEnd)
    );
    assert!(p.handle_inlay_hints(5, Some(anchor(1)), Some(anchor(2)), &cx).is_ok());
    let mut out = vec![];
    p.handle_refresh_inlay_hints(&mut out);
    p.show_notification("hello".to_string(), &mut out);
    assert_eq!(
        out,
        vec![
            Effect::Emit(Event::RefreshInlayHints),
            Effect::Emit(Event::Notification("hello".to_string())),
        ]
    );
}

#[test]
fn a_guest_hears_of_saved_buffers() {
    let (mut p, cx) = scene();
    p.client_state = guest();
    let mut out = vec![];
    let mut saved =
        SavedMessage { buffer_id: 5, version: 3, fingerprint: Some(9), mtime: Some(4) };
    assert_eq!(p.handle_buffer_saved(&saved, &cx, &mut out), Ok(()));
    assert_eq!(
        out,
        vec![Effect::BufferSaved {
            buffer: EntityId(100),
            version: 3,
            fingerprint: 9,
            mtime: 4,
        }]
    );
    let told = SavedMessage::new(&cx.buffers[0]);
    out.clear();
    assert_eq!(p.handle_buffer_saved(&told, &cx, &mut out), Ok(()));
    assert_eq!(
        out,
        vec![Effect::BufferSaved {
            buffer: EntityId(100),
            version: 1,
            fingerprint: 0,
            mtime: 1,
        }]
    );
    saved.fingerprint = None;
    assert_eq!(
        p.handle_buffer_saved(&saved, &cx, &mut out),
        Err(ProjectError::InvalidFingerprint)
    );
    saved.fingerprint = Some(9);
    saved.mtime = None;
    assert_eq!(p.handle_buffer_saved(&saved, &cx, &mut out), Err(ProjectError::MissingMtime));
    let mut reloaded = ReloadedMessage {
        buffer_id: 5,
        version: 3,
        fingerprint: Some(9),
        line_ending: Some(LineEnding::Windows),
        mtime: Some(4),
    };
    out.clear();
    assert_eq!(p.handle_buffer_reloaded(&reloaded, &cx, &mut out), Ok(()));
    assert_eq!(
        out,
        vec![Effect::BufferReloaded {
            buffer: EntityId(100),
            version: 3,
            fingerprint: 9,
            line_ending: LineEnding::Windows,
            mtime: 4,
        }]
    );
    let told = ReloadedMessage::new(5, cx.buffers[0].saved);
    assert_eq!(told.line_ending, Some(LineEnding::Unix));
    reloaded.line_ending = None;
    assert_eq!(
        p.handle_buffer_reloaded(&reloaded, &cx, &mut out),
        Err(ProjectError::MissingLineEnding)
    );
    out.clear();
    p.handle_update_diff_base(5, None, &cx, &mut out);
    assert_eq!(out, vec![Effect::SetDiffBase { buffer: EntityId(100), diff_base: None }]);
}

#[test]
fn buffers_are_formatted_here_or_by_the_host() {
    let (mut p, cx) = scene();
    let plan = p.format(&vec![EntityId(100), EntityId(101)], FormatTrigger::Manual, &cx);
    let targets = match plan {
        FormatPlan::Local { targets } => targets,
        _ => panic!("the buffers are formatted here"),
    };
    assert_eq!(targets.len(), 1);
    assert_eq!(targets[0].document, Some(path("/root/a.rs")));
    let begun = p.begin_formatting(targets);
    assert_eq!(begun.len(), 1);
    let again = match p.format(&vec![EntityId(100)], FormatTrigger::Manual, &cx) {
        FormatPlan::Local { targets } => p.begin_formatting(targets),
        _ => panic!("the buffers are formatted here"),
    };
    assert!(again.is_empty());
    p.finish_formatting(&begun);
    assert!(p.buffers_being_formatted.is_empty());
    p.client_state = guest();
    assert!(matches!(
        p.format(&vec![EntityId(100)], FormatTrigger::Manual, &cx),
        FormatPlan::Host { project_id: 7, trigger: 1, buffer_ids } if buffer_ids == vec![5]
    ));
    assert_eq!(FormatTrigger::from_proto(1), FormatTrigger::Manual);
    assert_eq!(FormatTrigger::from_proto(7), FormatTrigger::Save);
    assert_eq!(FormatTrigger::Save.to_proto(), 0);
}

fn formatted_by(formatter: Formatter, format_on_save: FormatOnSave) -> LanguageSettings {
    LanguageSettings {
        enable_language_server: true,
        formatter,
        format_on_save,
        remove_trailing_whitespace_on_save: true,
        ensure_final_newline_on_save: true,
        tab_size: 4,
    }
}

#[test]
fn settings_pick_the_formatter() {
    let (mut p, cx) = scene();
    let target = match p.format(&vec![EntityId(100)], FormatTrigger::Save, &cx) {
        FormatPlan::Local { mut targets } => targets.remove(0),
        _ => panic!("the buffers are formatted here"),
    };
    let step = |formatter: Formatter, on_save: FormatOnSave, trigger: FormatTrigger| {
        format_step(&formatted_by(formatter, on_save), trigger, &target)
    };
    let save = FormatTrigger::Save;
    assert!(matches!(
        step(Formatter::Auto, FormatOnSave::Off, save),
        FormatStep::Nothing
    ));
    assert!(matches!(
        step(Formatter::LanguageServer, FormatOnSave::Off, FormatTrigger::Manual),
        FormatStep::ViaLsp { .. }
    ));
    assert!(matches!(
        step(Formatter::Prettier, FormatOnSave::LanguageServer, save),
        FormatStep::ViaLsp { .. }
    ));
    assert!(matches!(
        step(Formatter::Auto, FormatOnSave::On, save),
        FormatStep::ViaPrettier { otherwise: Some(_) }
    ));
    assert!(matches!(
        step(Formatter::Prettier, FormatOnSave::On, save),
        FormatStep::ViaPrettier { otherwise: None }
    ));
    let external = FormatOnSave::External {
        command: Arc::new("fmt".to_string()),
        arguments: Arc::new(vec![]),
    };
    assert!(matches!(
        step(Formatter::Auto, external, save),
        FormatStep::ViaExternalCommand { command, .. } if *command == "fmt"
    ));
    p.buffers_being_formatted.insert(5);
}

#[test]
fn formatting_is_dropped_after_an_edit() {
    assert!(format_outcome(true, None, Some(4)).is_applied);
    let grouped = format_outcome(true, Some(4), Some(4));
    assert!(grouped.is_applied);
    assert_eq!(grouped.grouped_with, Some(4));
    assert!(!format_outcome(true, Some(4), Some(5)).is_applied);
    assert!(!format_outcome(false, None, None).is_applied);
}

#[test]
fn servers_format_as_they_can() {
    let mut s = server(7, None);
    assert_eq!(format_via_lsp(&s), LspFormatting::Unsupported);
    s.document_range_formatting_provider = Some(Provider::Options);
    assert_eq!(format_via_lsp(&s), LspFormatting::WholeRange);
    s.document_formatting_provider = Some(Provider::Simple(false));
    assert_eq!(format_via_lsp(&s), LspFormatting::WholeRange);
    s.document_formatting_provider = Some(Provider::Simple(true));
    assert_eq!(format_via_lsp(&s), LspFormatting::Document);
}

#[test]
fn commands_get_the_path_of_the_buffer() {
    let (_, cx) = scene();
    let arguments = vec!["--path".to_string(), "{buffer_path}:{buffer_path}".to_string()];
    let command =
        format_via_external_command(&cx.buffers[0], &path("/root/a.rs"), &arguments, &cx)
            .unwrap();
    assert_eq!(command.directory, path("/root"));
    assert_eq!(command.arguments, vec!["--path", "/root/a.rs:/root/a.rs"]);
}

#[test]
fn dirty_buffers_are_reloaded_where_they_are() {
    let (mut p, mut cx) = scene();
    assert!(p.reload_buffers(&vec![EntityId(100)], &cx).local.is_empty());
    cx.buffers[0].is_dirty = true;
    assert_eq!(p.reload_buffers(&vec![EntityId(100)], &cx).local, vec![EntityId(100)]);
    assert!(p.handle_reload_buffers(&vec![5], &cx).is_ok());
    assert_eq!(
        p.handle_reload_buffers(&vec![6], &cx).err(),
        Some(ProjectError::NoSuchBuffer(6))
    );
    assert!(p.handle_format_buffers(&vec![5], 0, &cx).is_ok());
    p.client_state = guest();
    cx.buffers[0].file.as_mut().unwrap().is_local = false;
    let plan = p.reload_buffers(&vec![EntityId(100)], &cx);
    assert!(plan.local.is_empty());
    assert_eq!(plan.remote, Some((7, vec![5])));
}

#[test]
fn prettier_is_looked_for() {
    let (mut p, mut cx) = scene();
    assert!(matches!(
        p.prettier_instance_for_buffer(&cx.buffers[0], &cx),
        Ok(PrettierLookup::Nobody)
    ));
    let css = Arc::new(Language {
        id: 2,
        name: "CSS".to_string(),
        prettier_parser_name: Some("css".to_string()),
        lsp_adapters: vec![],
    });
    cx.buffers[0].language = Some(css);
    p.has_node = true;
    let found = p.prettier_instance_for_buffer(&cx.buffers[0], &cx).unwrap();
    assert!(matches!(
        found,
        PrettierLookup::Locate { start: Some(ref start), worktree_id: Some(WorktreeId(10)) }
            if start.worktree_root_path == path("/root") && start.starting_path == path("a.rs")
    ));
    assert!(p.use_prettier(Some(WorktreeId(10)), path("/root")));
    assert!(!p.use_prettier(Some(WorktreeId(10)), path("/root")));
    p.client_state = guest();
    assert!(matches!(
        p.prettier_instance_for_buffer(&cx.buffers[0], &cx),
        Ok(PrettierLookup::Nobody)
    ));
}

#[test]
fn a_prettier_is_named_after_its_directory() {
    let root = path("/root");
    assert_eq!(prettier_name(true, &root, None).0, "prettier (default)");
    assert_eq!(prettier_name(false, &root, Some(&root)).0, "prettier (root)");
    assert_eq!(prettier_name(false, &path("/root/a/b"), Some(&root)).0, "prettier (a/b)");
    assert_eq!(prettier_name(false, &path("/other"), Some(&root)).0, "prettier (/other)");
    assert_eq!(prettier_name(false, &path("/other"), None).0, "prettier (/other)");
}

#[test]
fn plugins_are_installed_once() {
    let mut p = project();
    p.has_node = true;
    let mut a = adapter("tailwind");
    a.prettier_plugins = vec!["tailwind".to_string()];
    let css = Language {
        id: 2,
        name: "CSS".to_string(),
        prettier_parser_name: Some("css".to_string()),
        lsp_adapters: vec![Arc::new(a)],
    };
    let settings = formatted_by(Formatter::Prettier, FormatOnSave::On);
    let dir = path("/default");
    let needed = p.install_default_formatters(None, &css, &settings, &dir).unwrap();
    assert!(!needed.waits);
    assert!(!needed.is_running);
    let packages = packages_to_install(&needed.plugins);
    assert_eq!(packages, vec!["tailwind", "prettier"]);
    assert!(!clears_cache(&needed.plugins, true));
    let left = p.continue_installation(needed.plugins).unwrap();
    p.finish_installation(left);
    assert!(p.install_default_formatters(None, &css, &settings, &dir).is_none());
    let by_server = formatted_by(Formatter::LanguageServer, FormatOnSave::On);
    assert!(p.install_default_formatters(None, &css, &by_server, &dir).is_none());
    assert!(clears_cache(&SortedSet::new(), true));
}

#[test]
fn other_servers_are_announced() {
    let mut p = project();
    let mut out = vec![];
    p.add_supplementary_server(
        LanguageServerId(9),
        LanguageServerName("prettier (default)".to_string()),
        Arc::new(server(9, None)),
        &mut out,
    );
    assert_eq!(out, vec![Effect::Emit(Event::LanguageServerAdded(LanguageServerId(9)))]);
    assert_eq!(p.supplementary_language_servers().len(), 1);
    out.clear();
    p.copilot_logged(LanguageServerId(9), "line".to_string(), &mut out);
    assert_eq!(
        out,
        vec![Effect::Emit(Event::LanguageServerLog(LanguageServerId(9), "line".to_string()))]
    );
}

#[test]
fn a_workspace_edit_is_gone_through() {
    let edit = || LspEdit { range: range(), new_text: "x".to_string() };
    let changes = vec![(Some(path("/root/a.rs")), vec![edit()])];
    let both = WorkspaceEdit {
        changes: Some(vec![(Some(path("/root/b.rs")), vec![edit()])]),
        document_changes: Some(DocumentChanges::Edits(vec![DocumentEdit {
            document: Some(path("/root/c.rs")),
            version: Some(3),
            edits: vec![edit()],
        }])),
    };
    let operations = deserialize_workspace_edit(both);
    assert_eq!(operations.len(), 1);
    assert!(matches!(
        &operations[0],
        DocumentOperation::Edit(e)
            if e.document == Some(path("/root/c.rs")) && e.version == Some(3)
    ));
    let plain = WorkspaceEdit { changes: Some(changes), document_changes: None };
    let operations = deserialize_workspace_edit(plain);
    assert!(matches!(
        &operations[0],
        DocumentOperation::Edit(e) if e.document == Some(path("/root/a.rs")) && e.version.is_none()
    ));
    assert!(file_actions(&operations[0]).unwrap().is_empty());
}

#[test]
fn files_are_created_renamed_and_deleted() {
    let options = Some(OverwriteOptions { overwrite: Some(true), ignore_if_exists: None });
    let create = DocumentOperation::Create { path: Some(path("/root/new/a.rs")), options };
    assert!(matches!(
        &file_actions(&create).unwrap()[..],
        [
            FileAction::CreateDir { path: dir },
            FileAction::CreateFile { path: at, overwrite: true, ignore_if_exists: false },
        ] if *dir == path("/root/new") && *at == path("/root/new/a.rs")
    ));
    let rename = DocumentOperation::Rename {
        source: Some(path("/a")),
        target: Some(path("/b")),
        options: None,
    };
    assert!(matches!(
        &file_actions(&rename).unwrap()[..],
        [FileAction::Rename { source, target, overwrite: false, ignore_if_exists: false }]
            if *source == path("/a") && *target == path("/b")
    ));
    let options = Some(DeleteOptions { recursive: Some(true), ignore_if_not_exists: Some(false) });
    let delete = DocumentOperation::Delete { path: Some(path("/a")), options };
    assert!(matches!(
        &file_actions(&delete).unwrap()[..],
        [FileAction::RemoveFile { recursive: true, ignore_if_not_exists: false, .. }]
    ));
    let nowhere = DocumentOperation::Delete { path: None, options };
    assert_eq!(file_actions(&nowhere).err(), Some(ProjectError::UriIsNotAFile));
}

#[test]
fn an_edit_outside_the_history_is_forgotten() {
    let kept = deserialize_edits(Some(4), true);
    assert_eq!((kept.transaction, kept.is_forgotten), (Some(4), false));
    let forgotten = deserialize_edits(Some(4), false);
    assert_eq!((forgotten.transaction, forgotten.is_forgotten), (Some(4), true));
    let nothing = deserialize_edits(None, false);
    assert_eq!((nothing.transaction, nothing.is_forgotten), (None, false));
}

fn create(at: &str) -> DocumentOperation {
    DocumentOperation::Create { path: Some(path(at)), options: None }
}

fn edited(at: &str) -> DocumentOperation {
    DocumentOperation::Edit(DocumentEdit {
        document: Some(path(at)),
        version: None,
        edits: vec![],
    })
}

fn run_of(operations: Vec<DocumentOperation>) -> EditRun {
    EditRun::new(
        WorkspaceEdit {
            changes: None,
            document_changes: Some(DocumentChanges::Operations(operations)),
        },
        true,
    )
}

#[test]
fn the_steps_of_an_edit_are_carried_out_in_order() {
    let mut run = run_of(vec![create("/r/a"), edited("/r/b"), edited("/r/a"), edited("/r/b")]);
    assert!(run.action().is_none());
    assert!(matches!(
        run.advance(EditEvent::Started),
        Some(EditAction::File(FileAction::CreateDir { path: at })) if at == path("/r")
    ));
    // What does not answer the action changes nothing.
    assert!(matches!(
        run.advance(EditEvent::Edited { buffer: EntityId(1), transaction: Some(1) }),
        Some(EditAction::File(FileAction::CreateDir { .. }))
    ));
    assert!(matches!(
        run.advance(EditEvent::Done),
        Some(EditAction::File(FileAction::CreateFile { path: at, .. })) if at == path("/r/a")
    ));
    assert!(matches!(
        run.advance(EditEvent::Done),
        Some(EditAction::Edit { edit, push_to_history: true })
            if edit.document == Some(path("/r/b"))
    ));
    let made = |buffer, transaction| EditEvent::Edited { buffer: EntityId(buffer), transaction };
    assert!(matches!(
        run.advance(made(100, Some(7))),
        Some(EditAction::Edit { edit, .. }) if edit.document == Some(path("/r/a"))
    ));
    assert!(run.advance(made(101, None)).is_some());
    assert!(run.advance(made(100, Some(8))).is_none());
    let transaction = run.finish().unwrap();
    assert_eq!(transaction.0.len(), 1);
    assert_eq!(transaction.0.get(&EntityId(100)), Some(&8));
}

#[test]
fn a_failed_step_ends_the_edit() {
    let mut run = run_of(vec![edited("/r/a"), create("/r/b"), edited("/r/c")]);
    run.advance(EditEvent::Started);
    run.advance(EditEvent::Edited { buffer: EntityId(100), transaction: Some(7) });
    assert!(run.advance(EditEvent::Failed(ProjectError::StepFailed)).is_none());
    assert!(run.advance(EditEvent::Done).is_none());
    assert!(run.advance(EditEvent::Failed(ProjectError::UnknownBuffer)).is_none());
    assert_eq!(run.finish().err(), Some(ProjectError::StepFailed));
}

#[test]
fn a_step_that_names_no_file_ends_the_edit() {
    let nowhere = DocumentOperation::Delete { path: None, options: None };
    let mut run = run_of(vec![edited("/r/a"), nowhere, create("/r/b")]);
    assert!(run.advance(EditEvent::Started).is_some());
    assert!(run
        .advance(EditEvent::Edited { buffer: EntityId(100), transaction: Some(7) })
        .is_none());
    assert_eq!(run.finish().err(), Some(ProjectError::UriIsNotAFile));
    let mut run = EditRun::new(WorkspaceEdit { changes: None, document_changes: None }, false);
    assert!(run.advance(EditEvent::Started).is_none());
    assert!(run.finish().unwrap().0.is_empty());
}
