#![allow(dead_code)]

use project2::debounce::DelayedDebounced;
use project2::edits::{Anchor, Bias};
use project2::effects::{Effect, LocalProjectUpdate};
use project2::ids::PeerId;
use project2::matching::PathMatchCandidateSet;
use project2::model::ProjectPath;
use project2::project::{OpenBuffer, ProjectClientState, ProjectError};
use project2::search::{
    candidate_for_file, gather_locations, search_result, sort_candidates_and_open_buffers,
    CandidateBuffer, FoundLocation, ResultQueue, SearchMatchCandidate, SearchPlace,
};
use project2::ids::{
    EntityId, LanguageServerId, LanguageServerName, ProjectEntryId, WorktreeId,
};
use project2::map::SortedMap;
use project2::model::{
    AppContext, Buffer, Entry, File, FormatOnSave, Formatter, Language, LanguageServer,
    LanguageSettings, LineEnding, LspAdapter, SavedState, TextDocumentSync, TextSnapshot, Worktree,
};
use project2::path::{Component, Path};
use project2::project::{LanguageServerState, Project};
use std::sync::Arc;

fn path(text: &str) -> Path {
    let mut components = Vec::new();
    if text.starts_with('/') {
        components.push(Component::RootDir);
    }
    for part in text.split('/') {
        match part {
            "" => {}
            "." => components.push(Component::CurDir),
            ".." => components.push(Component::ParentDir),
            name => components.push(Component::Normal(name.to_string())),
        }
    }
    Path::from_components(components)
}

fn settings(enable_language_server: bool) -> Arc<LanguageSettings> {
    Arc::new(LanguageSettings {
        enable_language_server,
        formatter: Formatter::Auto,
        format_on_save: FormatOnSave::On,
        remove_trailing_whitespace_on_save: true,
        ensure_final_newline_on_save: true,
        tab_size: 4,
    })
}

fn adapter(name: &str) -> LspAdapter {
    LspAdapter {
        name: LanguageServerName(name.to_string()),
        disk_based_diagnostics_progress_token: None,
        disk_based_diagnostic_sources: vec![],
        language_ids: vec![("Rust".to_string(), "rust".to_string())],
        initialization_options: None,
        prettier_plugins: vec![],
        can_be_reinstalled: true,
        reinstall_attempt_count: 0,
    }
}

fn language(id: u64, name: &str, adapters: Vec<LspAdapter>) -> Arc<Language> {
    Arc::new(Language {
        id,
        name: name.to_string(),
        prettier_parser_name: None,
        lsp_adapters: adapters.into_iter().map(Arc::new).collect(),
    })
}

fn server(id: usize, sync: Option<TextDocumentSync>) -> LanguageServer {
    LanguageServer {
        server_id: LanguageServerId(id),
        name: format!("server {}", id),
        root_path: path("/root"),
        text_document_sync: sync,
        has_completion_provider: true,
        can_resolve_completions: false,
        completion_trigger_characters: None,
        document_formatting_provider: None,
        document_range_formatting_provider: None,
        inlay_hints_can_be_resolved: false,
    }
}

fn running(language: &Arc<Language>, server: LanguageServer) -> LanguageServerState {
    LanguageServerState::Running {
        language: language.clone(),
        adapter: language.lsp_adapters[0].clone(),
        server: Arc::new(server),
        watched_paths: SortedMap::new(),
        simulate_disk_based_diagnostics_completion: false,
    }
}

fn entry(id: usize, name: &str, is_file: bool) -> Entry {
    Entry { id: ProjectEntryId(id), path: path(name), mtime: 1, is_file, is_ignored: false }
}

fn worktree(entity: u64, id: usize, root: &str, entries: Vec<Entry>) -> Worktree {
    Worktree {
        entity_id: EntityId(entity),
        id: WorktreeId(id),
        is_local: true,
        is_visible: true,
        root_name: path(root).file_name().unwrap_or("".to_string()),
        abs_path: path(root),
        entries,
        diagnostic_summaries: vec![],
        local_settings: vec![],
    }
}

fn file(tree: &Worktree, name: &str, entry_id: usize) -> File {
    File {
        worktree: tree.entity_id,
        worktree_id: tree.id,
        path: path(name),
        abs_path: tree.abs_path.join(&path(name)),
        entry_id: ProjectEntryId(entry_id),
        mtime: 1,
        is_local: tree.is_local,
        is_deleted: false,
    }
}

fn buffer(
    entity: u64,
    remote_id: u64,
    file: Option<File>,
    language: Option<&Arc<Language>>,
    text: &str,
) -> Buffer {
    Buffer {
        entity_id: EntityId(entity),
        remote_id,
        file,
        language: language.cloned(),
        is_plain_text: false,
        contains_unknown_injections: false,
        is_dirty: false,
        snapshot: TextSnapshot { version: 1, text: Arc::new(text.to_string()) },
        saved: SavedState {
            version: 1,
            fingerprint: 0,
            line_ending: LineEnding::Unix,
            mtime: 1,
        },
        diff_base: None,
        settings: settings(true),
    }
}

fn context(buffers: Vec<Buffer>, worktrees: Vec<Worktree>) -> AppContext {
    AppContext { buffers, worktrees, language_settings: vec![], default_settings: settings(true) }
}

fn project() -> Project {
    Project::local_with_nonce(42, SortedMap::new(), false)
}

fn anchor(offset: usize) -> Anchor {
    Anchor { offset, bias: Bias::Left }
}

/// A project with five files, one of which is open, and a buffer without a file.
fn scene() -> (Project, AppContext) {
    let mut ignored = entry(9, "target/x.rs", true);
    ignored.is_ignored = true;
    let entries = vec![
        entry(1, "", false),
        entry(2, "a.rs", true),
        entry(3, "b.rs", true),
        entry(4, "c.rs", true),
        entry(5, "d.rs", true),
        entry(6, "e.rs", true),
        ignored,
    ];
    let tree = worktree(1, 10, "/root", entries);
    let b = buffer(100, 5, Some(file(&tree, "b.rs", 3)), None, "text");
    let untitled = buffer(101, 6, None, None, "text");
    let mut p = project();
    let mut out = vec![];
    p.add_worktree(&tree, &mut out);
    p.opened_buffers.insert(5, OpenBuffer::Strong(EntityId(100)));
    p.opened_buffers.insert(6, OpenBuffer::Strong(EntityId(101)));
    (p, context(vec![b, untitled], vec![tree]))
}

#[test]
fn every_file_has_one_worker() {
    let (p, cx) = scene();
    let plan = p.search_local(2, &cx).unwrap();
    assert_eq!(plan.path_count, 5);
    assert_eq!(plan.workers, 2);
    assert_eq!(plan.unnamed_buffers, vec![EntityId(101)]);
    let first = plan.background_search(0);
    let second = plan.background_search(1);
    let names = |files: &Vec<project2::search::SearchFile>| {
        files.iter().map(|f| f.path.clone()).collect::<Vec<_>>()
    };
    assert_eq!(names(&first), vec![path("a.rs"), path("c.rs")]);
    assert_eq!(names(&second), vec![path("d.rs"), path("e.rs")]);
    assert_eq!(first[0].abs_path, path("/root/a.rs"));
    let open = plan.open_candidates();
    assert_eq!(open.len(), 2);
    let at = ProjectPath { worktree_id: WorktreeId(10), path: path("b.rs") };
    assert_eq!(plan.opened_buffers, vec![(at, EntityId(100))]);
}

#[test]
fn few_files_need_few_workers() {
    let (p, cx) = scene();
    assert_eq!(p.search_local(64, &cx).unwrap().workers, 5);
    let empty = context(vec![], vec![]);
    assert!(p.search_local(64, &empty).is_none());
}

#[test]
fn buffers_are_searched_without_any_file() {
    let (mut p, cx) = scene();
    p.worktrees.clear();
    let plan = p.search_local(4, &cx).unwrap();
    assert_eq!((plan.path_count, plan.workers), (0, 0));
    assert_eq!(plan.unnamed_buffers, vec![EntityId(101)]);
    assert_eq!(plan.open_candidates().len(), 2);
    p.opened_buffers.remove(&5);
    assert_eq!(p.search_local(4, &cx).unwrap().open_candidates().len(), 1);
    p.opened_buffers.remove(&6);
    assert!(p.search_local(4, &cx).is_none());
}

#[test]
fn worktrees_may_have_the_same_paths() {
    let first = worktree(1, 10, "/first", vec![entry(2, "a.txt", true)]);
    let second = worktree(2, 20, "/second", vec![entry(3, "a.txt", true)]);
    let b = buffer(100, 5, Some(file(&first, "a.txt", 2)), None, "text");
    let c = buffer(101, 6, Some(file(&second, "a.txt", 3)), None, "text");
    let mut p = project();
    let mut out = vec![];
    p.add_worktree(&first, &mut out);
    p.add_worktree(&second, &mut out);
    p.opened_buffers.insert(5, OpenBuffer::Strong(EntityId(100)));
    let cx = context(vec![b, c], vec![first, second]);
    // The open file is not looked into, the one of the same name is.
    let plan = p.search_local(1, &cx).unwrap();
    let files = plan.background_search(0);
    assert_eq!(files.len(), 1);
    assert_eq!(files[0].worktree_id, WorktreeId(20));
    // Both are searched where both are open.
    p.opened_buffers.insert(6, OpenBuffer::Strong(EntityId(101)));
    let plan = p.search_local(1, &cx).unwrap();
    assert!(plan.background_search(0).is_empty());
    let open = plan.open_candidates();
    assert_eq!(open.len(), 2);
    assert!(matches!(open[0].buffer(), CandidateBuffer::Open(EntityId(100))));
    assert!(matches!(open[1].buffer(), CandidateBuffer::Open(EntityId(101))));
}

#[test]
fn a_file_is_a_candidate_if_it_matches() {
    let (p, cx) = scene();
    let files = || p.search_local(1, &cx).unwrap().background_search(0);
    let mut all = files();
    assert!(candidate_for_file(all.remove(0), true, false).is_none());
    let mut all = files();
    assert!(candidate_for_file(all.remove(0), false, true).is_none());
    let mut all = files();
    let found = candidate_for_file(all.remove(0), true, true).unwrap();
    assert_eq!(found.path(), Some(path("a.rs")));
    assert!(matches!(
        found.buffer(),
        CandidateBuffer::ToOpen(at) if at.worktree_id == WorktreeId(10) && at.path == path("a.rs")
    ));
}

#[test]
fn candidates_come_in_the_order_of_their_paths() {
    let candidates = vec![
        SearchMatchCandidate::Path { worktree_id: WorktreeId(10), path: path("z.rs") },
        SearchMatchCandidate::OpenBuffer { buffer: EntityId(100), path: Some(path("b.rs")) },
        SearchMatchCandidate::OpenBuffer { buffer: EntityId(101), path: None },
        SearchMatchCandidate::Path { worktree_id: WorktreeId(10), path: path("a/b.rs") },
    ];
    let sorted = sort_candidates_and_open_buffers(&candidates);
    assert_eq!(
        sorted.iter().map(|c| c.path()).collect::<Vec<_>>(),
        vec![None, Some(path("a/b.rs")), Some(path("b.rs")), Some(path("z.rs"))]
    );
    assert!(matches!(sorted[0].buffer(), CandidateBuffer::Open(EntityId(101))));
}

#[test]
fn results_keep_their_order() {
    let mut queue: ResultQueue<&str> = ResultQueue::new(4);
    assert!(queue.finished(2, Some("c")).is_empty());
    assert!(queue.finished(1, None).is_empty());
    assert_eq!(queue.finished(0, Some("a")), vec!["a", "c"]);
    assert!(!queue.is_done());
    assert_eq!(queue.finished(3, Some("d")), vec!["d"]);
    assert!(queue.is_done());
}

#[test]
fn matches_are_anchored() {
    let r = search_result(Some(EntityId(100)), true, &vec![(1, 3), (5, 9)]).unwrap();
    assert_eq!(r.buffer, EntityId(100));
    assert_eq!(r.ranges[0].0, Anchor { offset: 1, bias: Bias::Left });
    assert_eq!(r.ranges[0].1, Anchor { offset: 3, bias: Bias::Right });
    assert_eq!(r.ranges.len(), 2);
    assert!(search_result(None, true, &vec![(1, 3)]).is_none());
    assert!(search_result(Some(EntityId(100)), false, &vec![(1, 3)]).is_none());
    assert!(search_result(Some(EntityId(100)), true, &vec![]).is_none());
}

#[test]
fn a_guest_has_the_host_search() {
    let (mut p, _) = scene();
    assert!(matches!(p.search(), SearchPlace::Here));
    p.client_state = Some(ProjectClientState::Remote {
        sharing_has_stopped: false,
        remote_id: 7,
        replica_id: 3,
    });
    assert!(matches!(p.search(), SearchPlace::Host { project_id: 7 }));
}

#[test]
fn locations_are_gathered_by_buffer() {
    let found = |buffer: u64, start: Option<usize>, end: Option<usize>| FoundLocation {
        buffer: EntityId(buffer),
        start: start.map(anchor),
        end: end.map(anchor),
    };
    let all = vec![found(1, Some(0), Some(1)), found(2, Some(2), Some(3)), found(1, Some(4), Some(5))];
    let by_buffer = gather_locations(&all).unwrap();
    assert_eq!(
        by_buffer.get(&EntityId(1)),
        Some(&vec![(anchor(0), anchor(1)), (anchor(4), anchor(5))])
    );
    assert_eq!(by_buffer.get(&EntityId(2)), Some(&vec![(anchor(2), anchor(3))]));
    assert_eq!(
        gather_locations(&vec![found(1, None, Some(1))]).err(),
        Some(ProjectError::MissingTargetStart)
    );
    assert_eq!(
        gather_locations(&vec![found(1, Some(1), None)]).err(),
        Some(ProjectError::MissingTargetEnd)
    );
}

#[test]
fn found_buffers_are_handed_to_the_peer() {
    let (mut p, cx) = scene();
    p.client_state = Some(ProjectClientState::Local { remote_id: 7 });
    let mut out = vec![];
    let ranges = vec![(anchor(0), anchor(1)), (anchor(4), anchor(5))];
    let told = p.handle_search_project(&cx.buffers[0], &ranges, PeerId(2), &mut out);
    assert_eq!(told.len(), 2);
    assert!(told.iter().all(|l| l.buffer_id == 5));
    assert_eq!(told[1].start, anchor(4));
    assert!(out.iter().all(|e| *e
        == Effect::QueueUpdate(LocalProjectUpdate::CreateBufferForPeer {
            peer_id: PeerId(2),
            buffer_id: 5,
        })));
    assert!(!out.is_empty());
}

#[test]
fn files_can_be_picked() {
    let (_, mut cx) = scene();
    let snapshot = Arc::new(cx.worktrees.remove(0));
    let set = PathMatchCandidateSet {
        snapshot: snapshot.clone(),
        include_ignored: false,
        include_root_name: true,
    };
    assert_eq!(set.id(), 10);
    assert_eq!(set.len(), 5);
    assert_eq!(set.prefix(), "root/");
    let mut files = set.candidates(3);
    assert_eq!(files.next(), Some(&path("d.rs")));
    assert_eq!(files.next(), Some(&path("e.rs")));
    assert_eq!(files.next(), None);
    let all = PathMatchCandidateSet { snapshot, include_ignored: true, include_root_name: false };
    assert_eq!(all.len(), 6);
    assert_eq!(all.prefix(), "");
}

#[test]
fn a_worktree_that_is_a_file_is_its_own_prefix() {
    let tree = worktree(1, 10, "/root/a.rs", vec![entry(1, "", true)]);
    let set = PathMatchCandidateSet {
        snapshot: Arc::new(tree),
        include_ignored: false,
        include_root_name: false,
    };
    assert_eq!(set.prefix(), "a.rs");
}

#[test]
fn a_later_plan_takes_the_place_of_an_earlier_one() {
    let mut debounced = DelayedDebounced::new();
    let first = debounced.fire_new();
    assert!(debounced.is_due(first));
    let second = debounced.fire_new();
    assert!(!debounced.is_due(first));
    assert!(debounced.is_due(second));
}
