//! The data that the project's rules read: buffers, worktrees, languages and servers.

use crate::ids::{EntityId, LanguageServerId, LanguageServerName, ProjectEntryId, WorktreeId};
use crate::order::{Key, Order};
use crate::path::{Part, Path};
use crate::seqs::{
    find_map, lemma_find_map_exact, lemma_find_map_found, lemma_find_map_none,
};
use std::sync::Arc;
use vstd::prelude::*;

verus! {

/// A position in a text: a row and a column counted in UTF-16 units.
#[derive(Clone, Copy, Debug, PartialEq, Eq, Hash, Structural)]
pub struct PointUtf16 {
    pub row: u32,
    pub column: u32,
}

impl PointUtf16 {
    pub open spec fn at_or_before(self, other: PointUtf16) -> bool {
        self.row < other.row || (self.row == other.row && self.column <= other.column)
    }

    pub fn is_at_or_before(&self, other: &PointUtf16) -> (r: bool)
        ensures
            r == self.at_or_before(*other),
    {
        self.row < other.row || (self.row == other.row && self.column <= other.column)
    }
}

/// The text of a buffer at one moment.
#[derive(Debug, PartialEq, Eq)]
pub struct TextSnapshot {
    /// Distinguishes the states that a buffer has gone through.
    pub version: u64,
    pub text: Arc<String>,
}

impl Clone for TextSnapshot {
    fn clone(&self) -> (r: Self)
        ensures
            r == *self,
    {
        TextSnapshot { version: self.version, text: self.text.clone() }
    }
}

/// How a buffer is formatted by a language's tools.
#[derive(Debug, PartialEq, Eq)]
pub enum Formatter {
    LanguageServer,
    Prettier,
    Auto,
    External { command: Arc<String>, arguments: Arc<Vec<String>> },
}

impl Clone for Formatter {
    fn clone(&self) -> (r: Self)
        ensures
            r == *self,
    {
        match self {
            Formatter::LanguageServer => Formatter::LanguageServer,
            Formatter::Prettier => Formatter::Prettier,
            Formatter::Auto => Formatter::Auto,
            Formatter::External { command, arguments } => Formatter::External {
                command: command.clone(),
                arguments: arguments.clone(),
            },
        }
    }
}

/// What is done to a buffer when it is saved.
#[derive(Debug, PartialEq, Eq)]
pub enum FormatOnSave {
    On,
    Off,
    LanguageServer,
    External { command: Arc<String>, arguments: Arc<Vec<String>> },
}

impl Clone for FormatOnSave {
    fn clone(&self) -> (r: Self)
        ensures
            r == *self,
    {
        match self {
            FormatOnSave::On => FormatOnSave::On,
            FormatOnSave::Off => FormatOnSave::Off,
            FormatOnSave::LanguageServer => FormatOnSave::LanguageServer,
            FormatOnSave::External { command, arguments } => FormatOnSave::External {
                command: command.clone(),
                arguments: arguments.clone(),
            },
        }
    }
}

/// The settings that hold for a language in a file.
#[derive(Debug, PartialEq, Eq)]
pub struct LanguageSettings {
    pub enable_language_server: bool,
    pub formatter: Formatter,
    pub format_on_save: FormatOnSave,
    pub remove_trailing_whitespace_on_save: bool,
    pub ensure_final_newline_on_save: bool,
    pub tab_size: u32,
}

/// What is known of a kind of language server.
#[derive(Debug)]
pub struct LspAdapter {
    pub name: LanguageServerName,
    pub disk_based_diagnostics_progress_token: Option<String>,
    pub disk_based_diagnostic_sources: Vec<String>,
    /// The identifier that the server knows each language by.
    pub language_ids: Vec<(String, String)>,
    /// The options that the server starts with, as JSON text.
    pub initialization_options: Option<String>,
    /// The plugins of prettier that go with the server.
    pub prettier_plugins: Vec<String>,
    pub can_be_reinstalled: bool,
    /// How often the server failed to start, in any of the projects that use the adapter.
    pub reinstall_attempt_count: u64,
}

/// A language that buffers are written in.
#[derive(Debug)]
pub struct Language {
    /// Distinguishes the language from every other one, also from one of the same name.
    pub id: u64,
    pub name: String,
    /// The parser by which prettier knows the language.
    pub prettier_parser_name: Option<String>,
    pub lsp_adapters: Vec<Arc<LspAdapter>>,
}

/// How a server wants to hear of changes of a document.
#[derive(Clone, Copy, Debug, PartialEq, Eq, Structural)]
pub enum SyncKind {
    Off,
    Full,
    Incremental,
}

/// Whether a server wants to hear of saved documents.
#[derive(Clone, Copy, Debug, PartialEq, Eq, Structural)]
pub enum SaveOptions {
    Supported(bool),
    Options { include_text: Option<bool> },
}

#[derive(Clone, Copy, Debug, PartialEq, Eq, Structural)]
pub enum TextDocumentSync {
    Kind(SyncKind),
    Options { change: Option<SyncKind>, save: Option<SaveOptions> },
}

/// A capability that is either switched on or described by options.
#[derive(Clone, Copy, Debug, PartialEq, Eq, Structural)]
pub enum Provider {
    Simple(bool),
    Options,
}

/// What a running language server has told of itself.
#[derive(Debug)]
pub struct LanguageServer {
    pub server_id: LanguageServerId,
    pub name: String,
    pub root_path: Path,
    pub text_document_sync: Option<TextDocumentSync>,
    pub has_completion_provider: bool,
    pub can_resolve_completions: bool,
    pub completion_trigger_characters: Option<Arc<Vec<String>>>,
    pub document_formatting_provider: Option<Provider>,
    pub document_range_formatting_provider: Option<Provider>,
    pub inlay_hints_can_be_resolved: bool,
}

/// The file that a buffer was read from.
#[derive(Debug)]
pub struct File {
    pub worktree: EntityId,
    pub worktree_id: WorktreeId,
    pub path: Path,
    pub abs_path: Path,
    pub entry_id: ProjectEntryId,
    pub mtime: u64,
    pub is_local: bool,
    pub is_deleted: bool,
}

impl Clone for File {
    fn clone(&self) -> (r: Self)
        ensures
            r == *self,
    {
        File {
            worktree: self.worktree,
            worktree_id: self.worktree_id,
            path: self.path.clone(),
            abs_path: self.abs_path.clone(),
            entry_id: self.entry_id,
            mtime: self.mtime,
            is_local: self.is_local,
            is_deleted: self.is_deleted,
        }
    }
}

impl File {
    /// The entry that the file still is, if it has not been deleted.
    pub fn project_entry_id(&self) -> (r: Option<ProjectEntryId>)
        ensures
            r == (if self.is_deleted {
                None::<ProjectEntryId>
            } else {
                Some(self.entry_id)
            }),
    {
        if self.is_deleted {
            None
        } else {
            Some(self.entry_id)
        }
    }
}

/// How the lines of a file end.
#[derive(Clone, Copy, Debug, PartialEq, Eq, Structural)]
pub enum LineEnding {
    Unix,
    Windows,
}

/// The state in which a buffer was last saved.
#[derive(Clone, Copy, Debug, PartialEq, Eq, Structural)]
pub struct SavedState {
    pub version: u64,
    pub fingerprint: u64,
    pub line_ending: LineEnding,
    pub mtime: u64,
}

/// What a buffer reports of itself.
#[derive(Debug)]
pub struct Buffer {
    pub entity_id: EntityId,
    /// The id by which all participants of a shared project know the buffer.
    pub remote_id: u64,
    pub file: Option<File>,
    pub language: Option<Arc<Language>>,
    pub is_plain_text: bool,
    pub contains_unknown_injections: bool,
    pub is_dirty: bool,
    pub snapshot: TextSnapshot,
    pub saved: SavedState,
    /// The text that git diffs are made against.
    pub diff_base: Option<Arc<String>>,
    pub settings: Arc<LanguageSettings>,
}

/// A file or directory of a worktree.
#[derive(Debug)]
pub struct Entry {
    pub id: ProjectEntryId,
    pub path: Path,
    pub mtime: u64,
    pub is_file: bool,
    pub is_ignored: bool,
}

impl Clone for Entry {
    fn clone(&self) -> (r: Self)
        ensures
            r == *self,
    {
        Entry {
            id: self.id,
            path: self.path.clone(),
            mtime: self.mtime,
            is_file: self.is_file,
            is_ignored: self.is_ignored,
        }
    }
}

/// How many problems a path has.
#[derive(Copy, Clone, Debug, PartialEq, Eq, Structural)]
pub struct DiagnosticSummary {
    pub error_count: usize,
    pub warning_count: usize,
}

/// What a worktree reports of itself.
#[derive(Debug)]
pub struct Worktree {
    pub entity_id: EntityId,
    pub id: WorktreeId,
    pub is_local: bool,
    pub is_visible: bool,
    pub root_name: String,
    pub abs_path: Path,
    /// The entries in the order of their paths.
    pub entries: Vec<Entry>,
    pub diagnostic_summaries: Vec<(Path, LanguageServerId, DiagnosticSummary)>,
    /// The settings files of the worktree, with their contents.
    pub local_settings: Vec<(Path, Arc<String>)>,
}

/// The settings that hold for a language in a worktree, or outside of all.
#[derive(Debug)]
pub struct SettingsRecord {
    pub language: u64,
    pub worktree: Option<EntityId>,
    pub settings: Arc<LanguageSettings>,
}

/// What the entities outside of the project report: the buffers and worktrees that are alive, and
/// the settings in force.
#[derive(Debug)]
pub struct AppContext {
    pub buffers: Vec<Buffer>,
    pub worktrees: Vec<Worktree>,
    pub language_settings: Vec<SettingsRecord>,
    pub default_settings: Arc<LanguageSettings>,
}

pub open spec fn buffer_is(id: EntityId) -> spec_fn(Buffer) -> Option<Buffer> {
    |b: Buffer|
        if b.entity_id == id {
            Some(b)
        } else {
            None
        }
}

pub open spec fn worktree_is(id: EntityId) -> spec_fn(Worktree) -> Option<Worktree> {
    |w: Worktree|
        if w.entity_id == id {
            Some(w)
        } else {
            None
        }
}

pub open spec fn settings_are(language: u64, worktree: Option<EntityId>) -> spec_fn(
    SettingsRecord,
) -> Option<Arc<LanguageSettings>> {
    |s: SettingsRecord|
        if s.language == language && s.worktree == worktree {
            Some(s.settings)
        } else {
            None
        }
}

impl AppContext {
    /// The buffer that a handle refers to, while it is alive.
    pub open spec fn live_buffer(self, id: EntityId) -> Option<Buffer> {
        find_map(self.buffers@, buffer_is(id))
    }

    /// The worktree that a handle refers to, while it is alive.
    pub open spec fn live_worktree(self, id: EntityId) -> Option<Worktree> {
        find_map(self.worktrees@, worktree_is(id))
    }

    /// The settings of a language in a worktree.
    pub open spec fn settings_in(self, language: u64, worktree: Option<EntityId>) -> Arc<
        LanguageSettings,
    > {
        match find_map(self.language_settings@, settings_are(language, worktree)) {
            Some(s) => s,
            None => self.default_settings,
        }
    }

    pub fn buffer(&self, id: EntityId) -> (r: Option<&Buffer>)
        ensures
            match r {
                Some(b) => self.live_buffer(id) == Some(*b),
                None => self.live_buffer(id) is None,
            },
    {
        for i in 0..self.buffers.len()
            invariant
                forall|j: int| 0 <= j < i ==> buffer_is(id)(#[trigger] self.buffers@[j]) is None,
        {
            if self.buffers[i].entity_id == id {
                proof {
                    lemma_find_map_found(self.buffers@, buffer_is(id), i as int);
                }
                return Some(&self.buffers[i]);
            }
        }
        proof {
            lemma_find_map_none(self.buffers@, buffer_is(id));
        }
        None
    }

    pub fn worktree(&self, id: EntityId) -> (r: Option<&Worktree>)
        ensures
            match r {
                Some(w) => self.live_worktree(id) == Some(*w),
                None => self.live_worktree(id) is None,
            },
    {
        for i in 0..self.worktrees.len()
            invariant
                forall|j: int|
                    0 <= j < i ==> worktree_is(id)(#[trigger] self.worktrees@[j]) is None,
        {
            if self.worktrees[i].entity_id == id {
                proof {
                    lemma_find_map_found(self.worktrees@, worktree_is(id), i as int);
                }
                return Some(&self.worktrees[i]);
            }
        }
        proof {
            lemma_find_map_none(self.worktrees@, worktree_is(id));
        }
        None
    }

    pub fn language_settings(&self, language: u64, worktree: Option<EntityId>) -> (r: Arc<
        LanguageSettings,
    >)
        ensures
            r == self.settings_in(language, worktree),
    {
        for i in 0..self.language_settings.len()
            invariant
                forall|j: int|
                    0 <= j < i ==> settings_are(language, worktree)(
                        #[trigger] self.language_settings@[j],
                    ) is None,
        {
            let s = &self.language_settings[i];
            if s.language == language && s.worktree == worktree {
                proof {
                    lemma_find_map_found(
                        self.language_settings@,
                        settings_are(language, worktree),
                        i as int,
                    );
                }
                return s.settings.clone();
            }
        }
        proof {
            lemma_find_map_none(self.language_settings@, settings_are(language, worktree));
        }
        self.default_settings.clone()
    }
}

/// What a project path stands for.
pub struct ProjectPathView {
    pub worktree_id: WorktreeId,
    pub path: Seq<Part>,
}

/// A path below a worktree of the project.
#[derive(Debug, PartialEq, Eq, Hash)]
pub struct ProjectPath {
    pub worktree_id: WorktreeId,
    pub path: Path,
}

impl View for ProjectPath {
    type V = ProjectPathView;

    open spec fn view(&self) -> ProjectPathView {
        ProjectPathView { worktree_id: self.worktree_id, path: self.path@ }
    }
}

impl Clone for ProjectPath {
    fn clone(&self) -> (r: Self)
        ensures
            r == *self,
    {
        ProjectPath { worktree_id: self.worktree_id, path: self.path.clone() }
    }
}

impl From<(WorktreeId, Path)> for ProjectPath {
    fn from(pair: (WorktreeId, Path)) -> (r: Self) {
        ProjectPath { worktree_id: pair.0, path: pair.1 }
    }
}

impl vstd::std_specs::convert::FromSpecImpl<(WorktreeId, Path)> for ProjectPath {
    open spec fn obeys_from_spec() -> bool {
        true
    }

    open spec fn from_spec(pair: (WorktreeId, Path)) -> Self {
        ProjectPath { worktree_id: pair.0, path: pair.1 }
    }
}

/// Project paths are ordered by worktree, then by path.
impl Key for ProjectPath {
    type S = ProjectPathView;

    open spec fn key(self) -> ProjectPathView {
        self@
    }

    open spec fn before(a: ProjectPathView, b: ProjectPathView) -> bool {
        a.worktree_id.0 < b.worktree_id.0 || (a.worktree_id == b.worktree_id
            && <Path as Key>::before(a.path, b.path))
    }

    proof fn before_irreflexive(a: ProjectPathView) {
        <Path as Key>::before_irreflexive(a.path);
    }

    proof fn before_transitive(a: ProjectPathView, b: ProjectPathView, c: ProjectPathView) {
        if <Path as Key>::before(a.path, b.path) && <Path as Key>::before(b.path, c.path) {
            <Path as Key>::before_transitive(a.path, b.path, c.path);
        }
    }

    proof fn before_total(a: ProjectPathView, b: ProjectPathView) {
        <Path as Key>::before_total(a.path, b.path);
    }

    fn order(&self, other: &Self) -> (r: Order) {
        match self.worktree_id.order(&other.worktree_id) {
            Order::Same => self.path.order(&other.path),
            o => o,
        }
    }
}

/// A buffer is alive exactly if the editor reports one with its id, and what is found has that id.
pub proof fn reported_buffers_are_alive(cx: AppContext, id: EntityId)
    ensures
        cx.live_buffer(id) is Some ==> cx.live_buffer(id)->0.entity_id == id
            && cx.buffers@.contains(cx.live_buffer(id)->0),
        cx.live_buffer(id) is None ==> forall|i: int|
            0 <= i < cx.buffers@.len() ==> (#[trigger] cx.buffers@[i]).entity_id != id,
{
    lemma_find_map_exact(cx.buffers@, buffer_is(id));
}

/// A worktree is alive exactly if the editor reports one with its id, and what is found has that id.
pub proof fn reported_worktrees_are_alive(cx: AppContext, id: EntityId)
    ensures
        cx.live_worktree(id) is Some ==> cx.live_worktree(id)->0.entity_id == id
            && cx.worktrees@.contains(cx.live_worktree(id)->0),
        cx.live_worktree(id) is None ==> forall|i: int|
            0 <= i < cx.worktrees@.len() ==> (#[trigger] cx.worktrees@[i]).entity_id != id,
{
    lemma_find_map_exact(cx.worktrees@, worktree_is(id));
}

/// The settings of a language in a worktree are those that are on record for the two; without a
/// record the default settings hold.
pub proof fn recorded_settings_hold(cx: AppContext, language: u64, worktree: Option<EntityId>)
    ensures
        (forall|i: int|
            0 <= i < cx.language_settings@.len() ==> !((
            #[trigger] cx.language_settings@[i]).language == language
                && cx.language_settings@[i].worktree == worktree)) ==> cx.settings_in(
            language,
            worktree,
        ) == cx.default_settings,
        forall|i: int|
            0 <= i < cx.language_settings@.len() && (
            #[trigger] cx.language_settings@[i]).language == language
                && cx.language_settings@[i].worktree == worktree && (forall|j: int|
                0 <= j < i ==> !((#[trigger] cx.language_settings@[j]).language == language
                    && cx.language_settings@[j].worktree == worktree)) ==> cx.settings_in(
                language,
                worktree,
            ) == cx.language_settings@[i].settings,
{
    let s = cx.language_settings@;
    let f = settings_are(language, worktree);
    lemma_find_map_exact(s, f);
    assert forall|i: int|
        0 <= i < s.len() && (#[trigger] s[i]).language == language && s[i].worktree == worktree && (
        forall|j: int|
            0 <= j < i ==> !((#[trigger] s[j]).language == language && s[j].worktree
                == worktree)) implies cx.settings_in(language, worktree) == s[i].settings by {
        lemma_find_map_found(s, f, i);
    }
}

/// Positions are ordered by rows, and within a row by columns; two that are at or before each other
/// are the same.
pub proof fn positions_are_ordered(a: PointUtf16, b: PointUtf16)
    ensures
        a.row < b.row ==> a.at_or_before(b) && !b.at_or_before(a),
        a.row == b.row ==> (a.at_or_before(b) <==> a.column <= b.column),
        a.at_or_before(b) && b.at_or_before(a) <==> a == b,
{
}

} // verus!
