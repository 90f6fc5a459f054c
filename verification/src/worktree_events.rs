//! What the project does when the files of a worktree have changed.

use crate::effects::{Effect, Event, FileInfo, Message, PathChange, UpdatedEntriesSet, UpdatedEntry};
use crate::ids::{EntityId, ProjectEntryId, WorktreeId};
use crate::map::SortedMap;
use crate::model::{AppContext, Buffer, Entry, File, ProjectPath, ProjectPathView, Worktree};
use crate::order::same;
use crate::path::{joined, Part, Path};
use crate::project::{OpenBuffer, Project};
use crate::seqs::{lemma_filter_map_step, lemma_take_all};
use std::sync::Arc;
use vstd::prelude::*;

verus! {

/// What a file stands for.
#[verifier::ext_equal]
pub struct FileView {
    pub worktree: EntityId,
    pub worktree_id: WorktreeId,
    pub path: Path,
    pub abs_path: Seq<Part>,
    pub entry_id: ProjectEntryId,
    pub mtime: u64,
    pub is_local: bool,
    pub is_deleted: bool,
}

impl View for File {
    type V = FileView;

    open spec fn view(&self) -> FileView {
        FileView {
            worktree: self.worktree,
            worktree_id: self.worktree_id,
            path: self.path,
            abs_path: self.abs_path@,
            entry_id: self.entry_id,
            mtime: self.mtime,
            is_local: self.is_local,
            is_deleted: self.is_deleted,
        }
    }
}

/// The file that an entry of a worktree is.
pub open spec fn file_of_entry(w: Worktree, e: Entry) -> FileView {
    FileView {
        worktree: w.entity_id,
        worktree_id: w.id,
        path: e.path,
        abs_path: joined(w.abs_path@, e.path@),
        entry_id: e.id,
        mtime: e.mtime,
        is_local: true,
        is_deleted: false,
    }
}

/// What has become of a file: the entry that it was, wherever that is now, or the entry that is
/// now at its path, or a file that is gone.
pub open spec fn changed_file(w: Worktree, old: FileView) -> FileView {
    match w.entry_of_id(old.entry_id) {
        Some(e) => file_of_entry(w, e),
        None => match w.entry_of_path(old.path@) {
            Some(e) => file_of_entry(w, e),
            None => FileView {
                worktree: w.entity_id,
                worktree_id: w.id,
                path: old.path,
                abs_path: joined(w.abs_path@, old.path@),
                entry_id: old.entry_id,
                mtime: old.mtime,
                is_local: true,
                is_deleted: true,
            },
        },
    }
}

/// Two files of one worktree do not differ.
pub open spec fn same_file(a: FileView, b: FileView) -> bool {
    &&& a.worktree == b.worktree
    &&& a.path@ == b.path@
    &&& a.entry_id == b.entry_id
    &&& a.mtime == b.mtime
    &&& a.is_local == b.is_local
    &&& a.is_deleted == b.is_deleted
}

fn entry_file(w: &Worktree, e: &Entry) -> (r: File)
    ensures
        r@ == file_of_entry(*w, *e),
{
    File {
        worktree: w.entity_id,
        worktree_id: w.id,
        path: e.path.clone(),
        abs_path: w.abs_path.join(&e.path),
        entry_id: e.id,
        mtime: e.mtime,
        is_local: true,
        is_deleted: false,
    }
}

fn new_file_for(w: &Worktree, old: &File) -> (r: File)
    ensures
        r@ == changed_file(*w, old@),
{
    match w.entry_for_id(old.entry_id) {
        Some(e) => entry_file(w, e),
        None => match w.entry_for_path(&old.path) {
            Some(e) => entry_file(w, e),
            None => File {
                worktree: w.entity_id,
                worktree_id: w.id,
                path: old.path.clone(),
                abs_path: w.abs_path.join(&old.path),
                entry_id: old.entry_id,
                mtime: old.mtime,
                is_local: true,
                is_deleted: true,
            },
        },
    }
}

fn is_same_file(a: &File, b: &File) -> (r: bool)
    ensures
        r == same_file(a@, b@),
{
    a.worktree == b.worktree && same(&a.path, &b.path) && a.entry_id == b.entry_id && a.mtime
        == b.mtime && a.is_local == b.is_local && a.is_deleted == b.is_deleted
}

pub open spec fn told_of(f: FileView) -> FileInfo {
    FileInfo {
        worktree_id: f.worktree_id.0 as u64,
        entry_id: f.entry_id.0 as u64,
        path: f.path,
        mtime: f.mtime,
        is_deleted: f.is_deleted,
    }
}

/// The buffers and their files while changes of a worktree are gone through.
pub struct FilesState {
    pub opened: Map<u64, OpenBuffer>,
    pub by_path: Map<ProjectPathView, u64>,
    pub by_entry: Map<ProjectEntryId, u64>,
    /// The files that buffers have got.
    pub files: Map<EntityId, FileView>,
    /// The buffers whose paths changed, with the files that they had.
    pub renamed: Seq<(EntityId, FileView)>,
    pub effects: Seq<Effect>,
}

impl FilesState {
    /// The file that a buffer has at the moment.
    pub open spec fn file_of(self, b: Buffer) -> Option<FileView> {
        if self.files.contains_key(b.entity_id) {
            Some(self.files[b.entity_id])
        } else {
            match b.file {
                Some(f) => Some(f@),
                None => None,
            }
        }
    }

    /// The buffer that a change speaks of: that of the entry, or else that of the path.
    pub open spec fn buffer_id_for(self, entry_id: ProjectEntryId, path: ProjectPathView) -> Option<
        u64,
    > {
        if self.by_entry.contains_key(entry_id) {
            Some(self.by_entry[entry_id])
        } else if self.by_path.contains_key(path) {
            Some(self.by_path[path])
        } else {
            None
        }
    }

    /// A change of a file that a live buffer has open.
    pub open spec fn after_file_change(
        self,
        w: Worktree,
        remote_id: Option<u64>,
        change: UpdatedEntry,
        buffer: EntityId,
        buffer_id: u64,
        old: FileView,
    ) -> FilesState {
        let path = ProjectPathView { worktree_id: w.id, path: change.path@ };
        let new = changed_file(w, old);
        let moved = new.abs_path != old.abs_path;
        let differs = !same_file(new, old);
        FilesState {
            opened: self.opened,
            by_path: if moved {
                self.by_path.insert(path, buffer_id)
            } else {
                self.by_path
            },
            by_entry: if new.entry_id != change.entry_id {
                self.by_entry.remove(change.entry_id).insert(new.entry_id, buffer_id)
            } else {
                self.by_entry
            },
            files: if differs {
                self.files.insert(buffer, new)
            } else {
                self.files
            },
            renamed: if moved {
                self.renamed.push((buffer, old))
            } else {
                self.renamed
            },
            effects: if differs {
                (match remote_id {
                    Some(project_id) => self.effects.push(
                        Effect::Send(
                            Message::UpdateBufferFile { project_id, buffer_id, file: told_of(new) },
                        ),
                    ),
                    None => self.effects,
                }).push(Effect::UpdateBufferFile { buffer, file: told_of(new) })
            } else {
                self.effects
            },
        }
    }

    /// What a change makes of the buffers.
    pub open spec fn after(
        self,
        w: Worktree,
        cx: AppContext,
        remote_id: Option<u64>,
        change: UpdatedEntry,
    ) -> FilesState {
        let path = ProjectPathView { worktree_id: w.id, path: change.path@ };
        match self.buffer_id_for(change.entry_id, path) {
            None => self,
            Some(buffer_id) => {
                let live = if self.opened.contains_key(buffer_id) {
                    self.opened[buffer_id].live(cx)
                } else {
                    None
                };
                match live {
                    None => FilesState {
                        opened: self.opened.remove(buffer_id),
                        by_path: self.by_path.remove(path),
                        by_entry: self.by_entry.remove(change.entry_id),
                        ..self
                    },
                    Some(b) => match self.file_of(b) {
                        Some(old) if old.worktree == w.entity_id => self.after_file_change(
                            w,
                            remote_id,
                            change,
                            b.entity_id,
                            buffer_id,
                            old,
                        ),
                        _ => self,
                    },
                }
            },
        }
    }
}

/// What the first `n` changes make of the buffers.
pub open spec fn after_changes(
    s: FilesState,
    w: Worktree,
    cx: AppContext,
    remote_id: Option<u64>,
    changes: Seq<UpdatedEntry>,
    n: int,
) -> FilesState
    decreases n,
{
    if n <= 0 {
        s
    } else {
        after_changes(s, w, cx, remote_id, changes, n - 1).after(w, cx, remote_id, changes[n - 1])
    }
}

/// The files that buffers have got, and the buffers whose paths changed.
struct Progress {
    files: SortedMap<EntityId, File>,
    renamed: Vec<(EntityId, File)>,
}

pub open spec fn renamed_views(renamed: Seq<(EntityId, File)>) -> Seq<(EntityId, FileView)> {
    renamed.map_values(|r: (EntityId, File)| (r.0, r.1@))
}

spec fn state_of(project: Project, progress: Progress, out: Seq<Effect>) -> FilesState {
    FilesState {
        opened: project.opened_buffers@,
        by_path: project.local_buffer_ids_by_path@,
        by_entry: project.local_buffer_ids_by_entry_id@,
        files: progress.files@.map_values(|f: File| f@),
        renamed: renamed_views(progress.renamed@),
        effects: out,
    }
}

impl Project {
    fn update_buffer_of_change(
        &mut self,
        w: &Worktree,
        change: &UpdatedEntry,
        cx: &AppContext,
        progress: &mut Progress,
        out: &mut Vec<Effect>,
    )
        ensures
            state_of(*final(self), *final(progress), final(out)@) == state_of(
                *old(self),
                *old(progress),
                old(out)@,
            ).after(*w, *cx, old(self).remote_id_of(), *change),
            *final(self) == (Project {
                opened_buffers: final(self).opened_buffers,
                local_buffer_ids_by_path: final(self).local_buffer_ids_by_path,
                local_buffer_ids_by_entry_id: final(self).local_buffer_ids_by_entry_id,
                ..*old(self)
            }),
    {
        let ghost s = state_of(*self, *progress, out@);
        let project_path = ProjectPath { worktree_id: w.id, path: change.path.clone() };
        let buffer_id: u64 = match self.local_buffer_ids_by_entry_id.get(&change.entry_id) {
            Some(id) => *id,
            None => match self.local_buffer_ids_by_path.get(&project_path) {
                Some(id) => *id,
                None => return,
            },
        };
        let live = match self.opened_buffers.get(&buffer_id) {
            Some(b) => b.upgrade(cx),
            None => None,
        };
        let buffer: &Buffer = match live {
            Some(b) => b,
            None => {
                self.opened_buffers.remove(&buffer_id);
                self.local_buffer_ids_by_path.remove(&project_path);
                self.local_buffer_ids_by_entry_id.remove(&change.entry_id);
                return;
            },
        };
        let known = match progress.files.get(&buffer.entity_id) {
            Some(f) => Some(f.clone()),
            None => match &buffer.file {
                Some(f) => Some(f.clone()),
                None => None,
            },
        };
        let old_file: File = match known {
            Some(f) => f,
            None => return,
        };
        assert(s.file_of(*buffer) == Some(old_file@));
        if old_file.worktree != w.entity_id {
            return;
        }
        let new_file = new_file_for(w, &old_file);
        let ghost done = s.after_file_change(
            *w,
            old(self).remote_id_of(),
            *change,
            buffer.entity_id,
            buffer_id,
            old_file@,
        );
        let is_same = is_same_file(&new_file, &old_file);
        if !same(&new_file.abs_path, &old_file.abs_path) {
            let ghost before = renamed_views(progress.renamed@);
            progress.renamed.push((buffer.entity_id, old_file.clone()));
            assert(renamed_views(progress.renamed@) =~= before.push((buffer.entity_id, old_file@)));
            self.local_buffer_ids_by_path.insert(project_path, buffer_id);
        }
        if new_file.entry_id != change.entry_id {
            self.local_buffer_ids_by_entry_id.remove(&change.entry_id);
            self.local_buffer_ids_by_entry_id.insert(new_file.entry_id, buffer_id);
        }
        if !is_same {
            if let Some(project_id) = self.remote_id() {
                out.push(
                    Effect::Send(
                        Message::UpdateBufferFile {
                            project_id,
                            buffer_id,
                            file: new_file.to_proto(),
                        },
                    ),
                );
            }
            out.push(
                Effect::UpdateBufferFile { buffer: buffer.entity_id, file: new_file.to_proto() },
            );
            progress.files.insert(buffer.entity_id, new_file);
        }
        assert(state_of(*self, *progress, out@).files =~= done.files);
        assert(state_of(*self, *progress, out@).effects =~= done.effects);
    }

    /// Gives the open buffers of a worktree the files that theirs have become. What comes back are
    /// the buffers whose paths changed, with the files that they had: they leave their language
    /// servers under the old paths and are registered anew.
    pub fn update_local_worktree_buffers(
        &mut self,
        worktree: &Worktree,
        changes: &Vec<UpdatedEntry>,
        cx: &AppContext,
        out: &mut Vec<Effect>,
    ) -> (r: Vec<(EntityId, File)>)
        ensures
            ({
                let s = after_changes(
                    FilesState {
                        opened: old(self).opened_buffers@,
                        by_path: old(self).local_buffer_ids_by_path@,
                        by_entry: old(self).local_buffer_ids_by_entry_id@,
                        files: Map::empty(),
                        renamed: Seq::empty(),
                        effects: old(out)@,
                    },
                    *worktree,
                    *cx,
                    old(self).remote_id_of(),
                    changes@,
                    changes@.len() as int,
                );
                &&& final(self).opened_buffers@ == s.opened
                &&& final(self).local_buffer_ids_by_path@ == s.by_path
                &&& final(self).local_buffer_ids_by_entry_id@ == s.by_entry
                &&& renamed_views(r@) == s.renamed
                &&& final(out)@ == s.effects
            }),
            *final(self) == (Project {
                opened_buffers: final(self).opened_buffers,
                local_buffer_ids_by_path: final(self).local_buffer_ids_by_path,
                local_buffer_ids_by_entry_id: final(self).local_buffer_ids_by_entry_id,
                ..*old(self)
            }),
    {
        let mut progress = Progress { files: SortedMap::new(), renamed: Vec::new() };
        let ghost start = FilesState {
            opened: self.opened_buffers@,
            by_path: self.local_buffer_ids_by_path@,
            by_entry: self.local_buffer_ids_by_entry_id@,
            files: Map::empty(),
            renamed: Seq::empty(),
            effects: out@,
        };
        let ghost remote_id = self.remote_id_of();
        assert(progress.files@.map_values(|f: File| f@) =~= Map::<EntityId, FileView>::empty());
        assert(renamed_views(progress.renamed@) =~= Seq::<(EntityId, FileView)>::empty());
        for i in 0..changes.len()
            invariant
                remote_id == self.remote_id_of(),
                remote_id == old(self).remote_id_of(),
                state_of(*self, progress, out@) == after_changes(
                    start,
                    *worktree,
                    *cx,
                    remote_id,
                    changes@,
                    i as int,
                ),
                *self == (Project {
                    opened_buffers: self.opened_buffers,
                    local_buffer_ids_by_path: self.local_buffer_ids_by_path,
                    local_buffer_ids_by_entry_id: self.local_buffer_ids_by_entry_id,
                    ..*old(self)
                }),
        {
            self.update_buffer_of_change(worktree, &changes[i], cx, &mut progress, out);
        }
        progress.renamed
    }
}

/// A buffer that was known by the entry of a change, and that has the file of a worktree, is
/// afterwards known by the entry that its file has become.
pub proof fn buffer_stays_known_by_its_entry(
    s: FilesState,
    w: Worktree,
    cx: AppContext,
    remote_id: Option<u64>,
    change: UpdatedEntry,
    buffer_id: u64,
    b: Buffer,
    old: FileView,
)
    requires
        s.by_entry.contains_key(change.entry_id),
        s.by_entry[change.entry_id] == buffer_id,
        s.opened.contains_key(buffer_id),
        s.opened[buffer_id].live(cx) == Some(b),
        s.file_of(b) == Some(old),
        old.worktree == w.entity_id,
    ensures
        ({
            let after = s.after(w, cx, remote_id, change);
            let id = changed_file(w, old).entry_id;
            &&& after.by_entry.contains_key(id)
            &&& after.by_entry[id] == buffer_id
            &&& after.file_of(b) is Some
            &&& same_file(after.file_of(b)->0, changed_file(w, old))
        }),
{
}

/// One of the directories contains the path.
pub open spec fn below_any(path: Seq<Part>, directories: Seq<Path>) -> bool {
    exists|i: int| 0 <= i < directories.len() && (#[trigger] directories[i])@.is_prefix_of(path)
}

fn is_below_any(path: &Path, directories: &Vec<Path>) -> (r: bool)
    ensures
        r == below_any(path@, directories@),
{
    for i in 0..directories.len()
        invariant
            forall|j: int| 0 <= j < i ==> !(#[trigger] directories@[j])@.is_prefix_of(path@),
    {
        if path.starts_with(&directories[i]) {
            assert(directories@[i as int]@.is_prefix_of(path@));
            return true;
        }
    }
    false
}

pub open spec fn loading_below(worktree_id: WorktreeId, directories: Seq<Path>) -> spec_fn(
    ProjectPath,
) -> Option<Path> {
    |p: ProjectPath|
        if p.worktree_id == worktree_id && below_any(p.path@, directories) {
            Some(p.path)
        } else {
            None
        }
}

pub open spec fn open_below(cx: AppContext, worktree: EntityId, directories: Seq<Path>) -> spec_fn(
    (u64, OpenBuffer),
) -> Option<(EntityId, Path)> {
    |e: (u64, OpenBuffer)|
        match e.1.live(cx) {
            Some(b) => match b.file {
                Some(f) if f.worktree == worktree && below_any(f.path@, directories) => Some(
                    (b.entity_id, f.path),
                ),
                _ => None,
            },
            None => None,
        }
}

/// The buffers whose git repositories have changed: the paths of those that are still being
/// loaded, and those that are open.
#[derive(Debug)]
pub struct ChangedRepositories {
    pub loading: Vec<Path>,
    pub open: Vec<(EntityId, Path)>,
}

impl Project {
    /// Finds the buffers below the work directories of git repositories that have changed.
    pub fn update_local_worktree_buffers_git_repos(
        &self,
        worktree: &Worktree,
        work_directories: &Vec<Path>,
        cx: &AppContext,
    ) -> (r: ChangedRepositories)
        ensures
            r.loading@ == self.loading_buffers_by_path.items().filter_map(
                loading_below(worktree.id, work_directories@),
            ),
            r.open@ == self.opened_buffers.entries().filter_map(
                open_below(*cx, worktree.entity_id, work_directories@),
            ),
    {
        let mut loading: Vec<Path> = Vec::new();
        let ghost items = self.loading_buffers_by_path.items();
        let ghost f = loading_below(worktree.id, work_directories@);
        let n: usize = self.loading_buffers_by_path.len();
        proof {
            lemma_take_all(items);
        }
        for i in 0..n
            invariant
                n == items.len(),
                items == self.loading_buffers_by_path.items(),
                f == loading_below(worktree.id, work_directories@),
                loading@ == items.take(i as int).filter_map(f),
        {
            proof {
                lemma_filter_map_step(items, f, i as int);
            }
            let p = self.loading_buffers_by_path.item(i);
            if p.worktree_id == worktree.id && is_below_any(&p.path, work_directories) {
                loading.push(p.path.clone());
            }
        }
        let mut open: Vec<(EntityId, Path)> = Vec::new();
        let ghost es = self.opened_buffers.entries();
        let ghost g = open_below(*cx, worktree.entity_id, work_directories@);
        let m: usize = self.opened_buffers.len();
        proof {
            lemma_take_all(es);
        }
        for i in 0..m
            invariant
                m == es.len(),
                es == self.opened_buffers.entries(),
                g == open_below(*cx, worktree.entity_id, work_directories@),
                open@ == es.take(i as int).filter_map(g),
        {
            proof {
                lemma_filter_map_step(es, g, i as int);
            }
            if let Some(b) = self.opened_buffers.value_of(i).upgrade(cx) {
                if let Some(file) = &b.file {
                    if file.worktree == worktree.entity_id && is_below_any(
                        &file.path,
                        work_directories,
                    ) {
                        open.push((b.entity_id, file.path.clone()));
                    }
                }
            }
        }
        ChangedRepositories { loading, open }
    }
}

/// Gives a buffer the text that its repository now has of it, and tells the other participants.
pub fn assign_diff_base(
    buffer: &Buffer,
    diff_base: Option<Arc<String>>,
    remote_id: Option<u64>,
    out: &mut Vec<Effect>,
)
    ensures
        final(out)@ == old(out)@.push(
            Effect::SetDiffBase { buffer: buffer.entity_id, diff_base },
        ) + (match remote_id {
            Some(project_id) => seq![
                Effect::Send(
                    Message::UpdateDiffBase { project_id, buffer_id: buffer.remote_id, diff_base },
                ),
            ],
            None => Seq::empty(),
        }),
{
    let copy = match &diff_base {
        Some(d) => Some(d.clone()),
        None => None,
    };
    out.push(Effect::SetDiffBase { buffer: buffer.entity_id, diff_base: copy });
    if let Some(project_id) = remote_id {
        out.push(
            Effect::Send(
                Message::UpdateDiffBase { project_id, buffer_id: buffer.remote_id, diff_base },
            ),
        );
    }
}

/// A settings file that has changed: the directory that its settings hold for, and the path of
/// the file, if it is still there.
#[derive(Debug)]
pub struct SettingsChange {
    pub directory: Path,
    pub file: Option<Path>,
}

pub struct SettingsChangeView {
    pub directory: Seq<Part>,
    pub file: Option<Seq<Part>>,
}

impl View for SettingsChange {
    type V = SettingsChangeView;

    open spec fn view(&self) -> SettingsChangeView {
        SettingsChangeView {
            directory: self.directory@,
            file: match self.file {
                Some(p) => Some(p@),
                None => None,
            },
        }
    }
}

pub open spec fn settings_change(abs_path: Seq<Part>, settings_path: Seq<Part>) -> spec_fn(
    UpdatedEntry,
) -> Option<SettingsChangeView> {
    |c: UpdatedEntry|
        if settings_path.is_suffix_of(c.path@) {
            Some(
                SettingsChangeView {
                    directory: c.path@.take(c.path@.len() - settings_path.len()),
                    file: if c.change == PathChange::Removed {
                        None
                    } else {
                        Some(joined(abs_path, c.path@))
                    },
                },
            )
        } else {
            None
        }
}

pub open spec fn settings_change_views(s: Seq<SettingsChange>) -> Seq<SettingsChangeView> {
    s.map_values(|c: SettingsChange| c@)
}

/// The settings files among the changes. `settings_path` is where a directory has its settings.
pub fn changed_settings(worktree: &Worktree, changes: &Vec<UpdatedEntry>, settings_path: &Path) -> (r:
    Vec<SettingsChange>)
    ensures
        settings_change_views(r@) == changes@.filter_map(
            settings_change(worktree.abs_path@, settings_path@),
        ),
{
    let mut r: Vec<SettingsChange> = Vec::new();
    let ghost f = settings_change(worktree.abs_path@, settings_path@);
    proof {
        lemma_take_all(changes@);
        assert(settings_change_views(r@) =~= Seq::<SettingsChangeView>::empty());
    }
    for i in 0..changes.len()
        invariant
            f == settings_change(worktree.abs_path@, settings_path@),
            settings_change_views(r@) == changes@.take(i as int).filter_map(f),
    {
        proof {
            lemma_filter_map_step(changes@, f, i as int);
        }
        let c = &changes[i];
        if c.path.ends_with(settings_path) {
            let ghost before = settings_change_views(r@);
            let directory = c.path.without_last(settings_path.len());
            let file = match c.change {
                PathChange::Removed => None,
                _ => Some(worktree.abs_path.join(&c.path)),
            };
            let change = SettingsChange { directory, file };
            let ghost v = change@;
            r.push(change);
            assert(settings_change_views(r@) =~= before.push(v));
        }
    }
    r
}

/// What is done with the settings of the first `n` directories.
pub open spec fn settings_effects(
    worktree: EntityId,
    worktree_id: WorktreeId,
    remote_id: Option<u64>,
    contents: Seq<(Path, Option<Arc<String>>)>,
    n: int,
) -> Seq<Effect>
    decreases n,
{
    if n <= 0 {
        Seq::empty()
    } else {
        let c = contents[n - 1];
        settings_effects(worktree, worktree_id, remote_id, contents, n - 1).push(
            Effect::SetLocalSettings { worktree, path: c.0, content: c.1 },
        ) + (match remote_id {
            Some(project_id) => seq![
                Effect::Send(
                    Message::UpdateWorktreeSettings {
                        project_id,
                        worktree_id: worktree_id.0 as u64,
                        path: c.0,
                        content: c.1,
                    },
                ),
            ],
            None => Seq::empty(),
        })
    }
}

/// Puts the settings of directories in force, and tells the other participants of them. `contents`
/// holds what the settings files hold, or nothing where there is none that can be read.
pub fn update_local_worktree_settings(
    worktree: EntityId,
    worktree_id: WorktreeId,
    remote_id: Option<u64>,
    contents: &Vec<(Path, Option<Arc<String>>)>,
    out: &mut Vec<Effect>,
)
    ensures
        final(out)@ == old(out)@ + settings_effects(
            worktree,
            worktree_id,
            remote_id,
            contents@,
            contents@.len() as int,
        ),
{
    assert(out@ + Seq::<Effect>::empty() =~= out@);
    for i in 0..contents.len()
        invariant
            out@ == old(out)@ + settings_effects(
                worktree,
                worktree_id,
                remote_id,
                contents@,
                i as int,
            ),
    {
        let ghost done = settings_effects(worktree, worktree_id, remote_id, contents@, i as int);
        let content = clone_content(&contents[i].1);
        out.push(
            Effect::SetLocalSettings { worktree, path: contents[i].0.clone(), content },
        );
        if let Some(project_id) = remote_id {
            let content = clone_content(&contents[i].1);
            out.push(
                Effect::Send(
                    Message::UpdateWorktreeSettings {
                        project_id,
                        worktree_id: worktree_id.to_proto(),
                        path: contents[i].0.clone(),
                        content,
                    },
                ),
            );
        }
        assert(out@ =~= old(out)@ + settings_effects(
            worktree,
            worktree_id,
            remote_id,
            contents@,
            i + 1,
        ));
    }
}

fn clone_content(content: &Option<Arc<String>>) -> (r: Option<Arc<String>>)
    ensures
        r == *content,
{
    match content {
        Some(c) => Some(c.clone()),
        None => None,
    }
}

/// The change is news of a configuration file of prettier, outside of installed packages.
pub open spec fn is_config_change(c: UpdatedEntry, config_files: Seq<Path>) -> bool {
    &&& c.change != PathChange::Loaded
    &&& !c.path@.contains(Part::Normal("node_modules"@))
    &&& names_path(config_files, c.path@)
}

pub open spec fn names_path(paths: Seq<Path>, path: Seq<Part>) -> bool {
    exists|i: int| 0 <= i < paths.len() && (#[trigger] paths[i])@ == path
}

pub open spec fn has_config_change(changes: Seq<UpdatedEntry>, config_files: Seq<Path>) -> bool {
    exists|i: int| 0 <= i < changes.len() && is_config_change(#[trigger] changes[i], config_files)
}

pub open spec fn reloads(worktree_id: WorktreeId) -> spec_fn((Option<WorktreeId>, Path)) -> Option<
    (Option<WorktreeId>, Path),
> {
    |k: (Option<WorktreeId>, Path)|
        if k.0 is None || k.0 == Some(worktree_id) {
            Some(k)
        } else {
            None
        }
}

fn contains_path(paths: &Vec<Path>, path: &Path) -> (r: bool)
    ensures
        r == names_path(paths@, path@),
{
    for i in 0..paths.len()
        invariant
            forall|j: int| 0 <= j < i ==> (#[trigger] paths@[j])@ != path@,
    {
        if same(&paths[i], path) {
            assert(paths@[i as int]@ == path@);
            return true;
        }
    }
    false
}

impl Project {
    /// The prettiers that have to read their configuration again: where a configuration file has
    /// changed, those of the worktree and those of none.
    pub fn update_prettier_settings(
        &self,
        worktree_id: WorktreeId,
        changes: &Vec<UpdatedEntry>,
        config_files: &Vec<Path>,
    ) -> (r: Vec<(Option<WorktreeId>, Path)>)
        ensures
            r@ == (if has_config_change(changes@, config_files@) {
                self.prettier_instances.items().filter_map(reloads(worktree_id))
            } else {
                Seq::empty()
            }),
    {
        let mut changed = false;
        for i in 0..changes.len()
            invariant
                changed == has_config_change(changes@.take(i as int), config_files@),
        {
            let c = &changes[i];
            let is_loaded = match c.change {
                PathChange::Loaded => true,
                _ => false,
            };
            let is_config = !is_loaded && !c.path.has_component("node_modules") && contains_path(
                config_files,
                &c.path,
            );
            proof {
                let head = changes@.take(i as int);
                let next = changes@.take(i + 1);
                assert(next =~= head.push(changes@[i as int]));
                if has_config_change(head, config_files@) {
                    let k = choose|k: int|
                        0 <= k < head.len() && is_config_change(#[trigger] head[k], config_files@);
                    assert(is_config_change(next[k], config_files@));
                }
                if is_config {
                    assert(is_config_change(next[i as int], config_files@));
                }
                if has_config_change(next, config_files@) {
                    let k = choose|k: int|
                        0 <= k < next.len() && is_config_change(#[trigger] next[k], config_files@);
                    if k < i {
                        assert(is_config_change(head[k], config_files@));
                    }
                }
            }
            changed = changed || is_config;
        }
        assert(changes@.take(changes@.len() as int) =~= changes@);
        let mut r: Vec<(Option<WorktreeId>, Path)> = Vec::new();
        if !changed {
            return r;
        }
        let ghost items = self.prettier_instances.items();
        let n: usize = self.prettier_instances.len();
        proof {
            lemma_take_all(items);
        }
        for i in 0..n
            invariant
                n == items.len(),
                items == self.prettier_instances.items(),
                r@ == items.take(i as int).filter_map(reloads(worktree_id)),
        {
            proof {
                lemma_filter_map_step(items, reloads(worktree_id), i as int);
            }
            let key = self.prettier_instances.item(i);
            let concerned = match key.0 {
                None => true,
                Some(id) => id == worktree_id,
            };
            if concerned {
                r.push((key.0, key.1.clone()));
            }
        }
        r
    }

    /// Tells the observers that the entries of a worktree have changed.
    pub fn announce_updated_entries(
        &self,
        worktree_id: WorktreeId,
        changes: UpdatedEntriesSet,
        out: &mut Vec<Effect>,
    )
        ensures
            final(out)@ == old(out)@.push(
                Effect::Emit(Event::WorktreeUpdatedEntries(worktree_id, changes)),
            ),
    {
        out.push(Effect::Emit(Event::WorktreeUpdatedEntries(worktree_id, changes)));
    }

    /// Finds the worktree of an absolute path. Where there is none, one has to be created.
    pub fn find_or_create_local_worktree(&self, abs_path: &Path, cx: &AppContext) -> (r: Option<
        (EntityId, Path),
    >)
        ensures
            match (self.worktree_containing(*cx, abs_path@), r) {
                (Some(w), Some((id, rest))) => id == w.entity_id && rest@ == abs_path@.skip(
                    w.abs_path@.len() as int,
                ),
                (None, None) => true,
                _ => false,
            },
    {
        match self.find_local_worktree(abs_path, cx) {
            Some((w, rest)) => Some((w.entity_id, rest)),
            None => None,
        }
    }

    /// Notes that a worktree is being created, and tells whether nobody has begun to yet.
    pub fn create_local_worktree(&mut self, abs_path: Path) -> (r: bool)
        ensures
            r == !old(self).loading_local_worktrees@.contains(abs_path@),
            final(self).loading_local_worktrees@ == old(self).loading_local_worktrees@.insert(
                abs_path@,
            ),
            *final(self) == (Project {
                loading_local_worktrees: final(self).loading_local_worktrees,
                ..*old(self)
            }),
    {
        self.loading_local_worktrees.insert(abs_path)
    }

    /// Enters a worktree that has been created, unless that failed.
    pub fn finish_creating_worktree(
        &mut self,
        abs_path: &Path,
        worktree: Option<&Worktree>,
        out: &mut Vec<Effect>,
    )
        ensures
            final(self).loading_local_worktrees@ == old(self).loading_local_worktrees@.remove(
                abs_path@,
            ),
            match worktree {
                None => final(self).worktrees@ == old(self).worktrees@ && final(out)@ == old(
                    out,
                )@,
                Some(w) => {
                    let hold = old(self).client_state matches Some(
                        crate::project::ProjectClientState::Local { .. },
                    ) || w.is_visible || !w.is_local;
                    &&& final(self).worktrees@ == old(self).worktrees@.push(
                        if hold {
                            crate::project::WorktreeHandle::Strong(w.entity_id)
                        } else {
                            crate::project::WorktreeHandle::Weak(w.entity_id)
                        },
                    )
                    &&& final(out)@ == old(out)@.push(Effect::Emit(Event::WorktreeAdded))
                        + crate::worktrees::metadata_changed_effects(old(self).client_state)
                },
            },
            *final(self) == (Project {
                loading_local_worktrees: final(self).loading_local_worktrees,
                worktrees: final(self).worktrees,
                ..*old(self)
            }),
    {
        self.loading_local_worktrees.remove(abs_path);
        if let Some(w) = worktree {
            self.add_worktree(w, out);
        }
    }
}

/// A file follows its entry: it gets the path, the time and the place that the entry now has. If the
/// entry is gone, the entry at its path takes over; if there is none, the file counts as deleted and
/// keeps its path.
pub proof fn files_follow_their_entries(w: Worktree, old: FileView)
    ensures
        ({
            let new = changed_file(w, old);
            let by_id = w.entry_of_id(old.entry_id);
            let by_path = w.entry_of_path(old.path@);
            &&& new.worktree == w.entity_id
            &&& new.worktree_id == w.id
            &&& new.is_local
            &&& new.abs_path == joined(w.abs_path@, new.path@)
            &&& by_id is Some ==> new.path == by_id->0.path && new.entry_id == by_id->0.id
                && new.mtime == by_id->0.mtime
            &&& by_id is None && by_path is Some ==> new.path == by_path->0.path && new.entry_id
                == by_path->0.id && new.mtime == by_path->0.mtime
            &&& new.is_deleted <==> by_id is None && by_path is None
            &&& new.is_deleted ==> new.path == old.path && new.entry_id == old.entry_id && new.mtime
                == old.mtime
        }),
{
}

/// Others are told of a file what they need to know it: its worktree, its entry, its path, its time,
/// and whether it is gone.
pub proof fn files_are_told_as_they_are(f: FileView)
    ensures
        told_of(f).worktree_id == f.worktree_id.0 as u64,
        told_of(f).entry_id == f.entry_id.0 as u64,
        told_of(f).path == f.path,
        told_of(f).mtime == f.mtime,
        told_of(f).is_deleted == f.is_deleted,
{
}

/// A buffer whose file has changed gets the new file, and in a shared project the others hear of it.
/// A buffer whose absolute path has changed is found by the path of the change, and is given back with
/// the file that it had.
pub proof fn changed_files_reach_their_buffers(
    s: FilesState,
    w: Worktree,
    remote_id: Option<u64>,
    change: UpdatedEntry,
    buffer: EntityId,
    buffer_id: u64,
    old: FileView,
)
    ensures
        ({
            let after = s.after_file_change(w, remote_id, change, buffer, buffer_id, old);
            let new = changed_file(w, old);
            let place = ProjectPathView { worktree_id: w.id, path: change.path@ };
            let differs = new.path@ != old.path@ || new.entry_id != old.entry_id || new.mtime
                != old.mtime || new.is_deleted != old.is_deleted || new.worktree != old.worktree
                || new.is_local != old.is_local;
            &&& after.opened == s.opened
            &&& new.abs_path != old.abs_path ==> after.by_path.contains_key(place)
                && after.by_path[place] == buffer_id && after.renamed == s.renamed.push(
                (buffer, old),
            )
            &&& new.abs_path == old.abs_path ==> after.by_path == s.by_path && after.renamed
                == s.renamed
            &&& differs ==> after.files.contains_key(buffer) && after.files[buffer] == new
                && after.effects.last() == (Effect::UpdateBufferFile { buffer, file: told_of(new) })
            &&& differs && remote_id is Some ==> after.effects.contains(
                Effect::Send(
                    Message::UpdateBufferFile {
                        project_id: remote_id->0,
                        buffer_id,
                        file: told_of(new),
                    },
                ),
            )
            &&& !differs ==> after.files == s.files && after.effects == s.effects
        }),
{
    let after = s.after_file_change(w, remote_id, change, buffer, buffer_id, old);
    if remote_id is Some && !same_file(changed_file(w, old), old) {
        let n = after.effects.len();
        assert(after.effects[n - 2] == Effect::Send(
            Message::UpdateBufferFile {
                project_id: remote_id->0,
                buffer_id,
                file: told_of(changed_file(w, old)),
            },
        ));
    }
}

/// A change is that of the buffer with its entry, and else that of the buffer at its path. A buffer
/// that is gone is forgotten; a change that no buffer has to do with changes nothing.
pub proof fn changes_find_their_buffers(
    s: FilesState,
    w: Worktree,
    cx: AppContext,
    remote_id: Option<u64>,
    change: UpdatedEntry,
)
    ensures
        ({
            let place = ProjectPathView { worktree_id: w.id, path: change.path@ };
            let id = if s.by_entry.contains_key(change.entry_id) {
                s.by_entry[change.entry_id]
            } else {
                s.by_path[place]
            };
            let is_known = s.by_entry.contains_key(change.entry_id) || s.by_path.contains_key(
                place,
            );
            let after = s.after(w, cx, remote_id, change);
            &&& !is_known ==> after == s
            &&& is_known && (!s.opened.contains_key(id) || s.opened[id].live(cx) is None) ==> {
                &&& !after.opened.contains_key(id)
                &&& !after.by_path.contains_key(place)
                &&& !after.by_entry.contains_key(change.entry_id)
                &&& after.effects == s.effects
                &&& after.renamed == s.renamed
            }
            &&& is_known && s.opened.contains_key(id) && s.opened[id].live(cx) is Some
                ==> after.opened == s.opened
        }),
{
}

/// A path lies below a directory exactly if it begins with the parts of the directory. Buffers that
/// are being loaded, or are open, below one of the given directories of the worktree are found, and
/// no others.
pub proof fn buffers_below_directories_are_found(
    cx: AppContext,
    worktree: EntityId,
    worktree_id: WorktreeId,
    directories: Seq<Path>,
    loading: ProjectPath,
    open: (u64, OpenBuffer),
)
    ensures
        loading_below(worktree_id, directories)(loading) is Some <==> loading.worktree_id
            == worktree_id && exists|i: int|
            0 <= i < directories.len() && (#[trigger] directories[i])@.is_prefix_of(
                loading.path@,
            ),
        loading_below(worktree_id, directories)(loading) is Some ==> loading_below(
            worktree_id,
            directories,
        )(loading)->0 == loading.path,
        open_below(cx, worktree, directories)(open) is Some <==> open.1.live(cx) is Some
            && open.1.live(cx)->0.file is Some && open.1.live(cx)->0.file->0.worktree == worktree
            && exists|i: int|
            0 <= i < directories.len() && (#[trigger] directories[i])@.is_prefix_of(
                open.1.live(cx)->0.file->0.path@,
            ),
        open_below(cx, worktree, directories)(open) is Some ==> open_below(
            cx,
            worktree,
            directories,
        )(open)->0 == (open.1.live(cx)->0.entity_id, open.1.live(cx)->0.file->0.path),
{
}

/// A change concerns settings exactly if it is one of a settings file. The settings hold for the
/// directory that has the file, which is read from its absolute path unless it was removed.
pub proof fn settings_hold_for_their_directory(
    abs_path: Seq<Part>,
    settings_path: Seq<Part>,
    directory: Seq<Part>,
    c: UpdatedEntry,
)
    ensures
        !settings_path.is_suffix_of(c.path@) ==> settings_change(abs_path, settings_path)(
            c,
        ) is None,
        c.path@ == directory + settings_path ==> {
            let r = settings_change(abs_path, settings_path)(c);
            &&& r is Some
            &&& r->0.directory == directory
            &&& c.change is Removed ==> r->0.file is None
            &&& !(c.change is Removed) ==> r->0.file == Some(joined(abs_path, c.path@))
        },
{
    if c.path@ == directory + settings_path {
        assert(settings_path =~= c.path@.subrange(
            c.path@.len() - settings_path.len(),
            c.path@.len() as int,
        ));
        assert(c.path@.take(c.path@.len() - settings_path.len()) =~= directory);
    }
}

/// The settings of each directory are put in force, and in a shared project the others are told of
/// them.
pub proof fn every_setting_is_put_in_force(
    worktree: EntityId,
    worktree_id: WorktreeId,
    remote_id: Option<u64>,
    contents: Seq<(Path, Option<Arc<String>>)>,
    n: int,
    i: int,
)
    requires
        0 <= i < n <= contents.len(),
    ensures
        settings_effects(worktree, worktree_id, remote_id, contents, n).contains(
            Effect::SetLocalSettings { worktree, path: contents[i].0, content: contents[i].1 },
        ),
        remote_id is Some ==> settings_effects(
            worktree,
            worktree_id,
            remote_id,
            contents,
            n,
        ).contains(
            Effect::Send(
                Message::UpdateWorktreeSettings {
                    project_id: remote_id->0,
                    worktree_id: worktree_id.0 as u64,
                    path: contents[i].0,
                    content: contents[i].1,
                },
            ),
        ),
        settings_effects(worktree, worktree_id, remote_id, contents, n).len() == (
        if remote_id is Some {
            2 * n
        } else {
            n
        }),
    decreases n,
{
    let before = settings_effects(worktree, worktree_id, remote_id, contents, n - 1);
    let after = settings_effects(worktree, worktree_id, remote_id, contents, n);
    let a = Effect::SetLocalSettings { worktree, path: contents[i].0, content: contents[i].1 };
    let b = Effect::Send(
        Message::UpdateWorktreeSettings {
            project_id: remote_id->0,
            worktree_id: worktree_id.0 as u64,
            path: contents[i].0,
            content: contents[i].1,
        },
    );
    if n > 1 {
        every_setting_is_put_in_force(
            worktree,
            worktree_id,
            remote_id,
            contents,
            n - 1,
            if i < n - 1 {
                i
            } else {
                0
            },
        );
    }
    if i < n - 1 {
        let k = choose|k: int| 0 <= k < before.len() && before[k] == a;
        assert(after[k] == a);
        if remote_id is Some {
            let k = choose|k: int| 0 <= k < before.len() && before[k] == b;
            assert(after[k] == b);
        }
    } else {
        assert(after[before.len() as int] == a);
        if remote_id is Some {
            assert(after[before.len() as int + 1] == b);
        }
    }
}

/// A change makes prettier read its configuration again exactly if it is news of one of the
/// configuration files that does not belong to an installed package.
pub proof fn configuration_changes_count(c: UpdatedEntry, config_files: Seq<Path>)
    ensures
        is_config_change(c, config_files) <==> !(c.change is Loaded) && (exists|i: int|
            0 <= i < config_files.len() && (#[trigger] config_files[i])@ == c.path@) && forall|
            i: int,
        |
            0 <= i < c.path@.len() ==> #[trigger] c.path@[i] != Part::Normal("node_modules"@),
{
}

/// The prettiers of a worktree, and those of none, read their configuration again; those of other
/// worktrees do not.
pub proof fn prettiers_of_the_worktree_reload(
    worktree_id: WorktreeId,
    k: (Option<WorktreeId>, Path),
)
    ensures
        k.0 is None ==> reloads(worktree_id)(k) == Some(k),
        k.0 is Some && k.0->0 == worktree_id ==> reloads(worktree_id)(k) == Some(k),
        k.0 is Some && k.0->0 != worktree_id ==> reloads(worktree_id)(k) is None,
{
}

/// Without changes nothing happens, and one change does what it does alone. Changes that no buffer has
/// to do with change nothing, however many they are.
pub proof fn changes_take_effect_one_by_one(
    s: FilesState,
    w: Worktree,
    cx: AppContext,
    remote_id: Option<u64>,
    changes: Seq<UpdatedEntry>,
    n: int,
)
    requires
        0 <= n <= changes.len(),
    ensures
        after_changes(s, w, cx, remote_id, changes, 0) == s,
        n == 1 ==> after_changes(s, w, cx, remote_id, changes, n) == s.after(
            w,
            cx,
            remote_id,
            changes[0],
        ),
        (forall|i: int|
            0 <= i < n ==> !s.by_entry.contains_key((#[trigger] changes[i]).entry_id)
                && !s.by_path.contains_key(
                ProjectPathView { worktree_id: w.id, path: changes[i].path@ },
            )) ==> after_changes(s, w, cx, remote_id, changes, n) == s,
    decreases n,
{
    if n > 0 {
        changes_take_effect_one_by_one(s, w, cx, remote_id, changes, n - 1);
        if n == 1 {
            reveal_with_fuel(after_changes, 2);
        }
        if forall|i: int|
            0 <= i < n ==> !s.by_entry.contains_key((#[trigger] changes[i]).entry_id)
                && !s.by_path.contains_key(
                ProjectPathView { worktree_id: w.id, path: changes[i].path@ },
            ) {
            assert(!s.by_entry.contains_key(changes[n - 1].entry_id));
        }
    }
}

/// Prettier reads its configuration again exactly if one of the changes is news of a configuration
/// file.
pub proof fn one_configuration_change_is_enough(changes: Seq<UpdatedEntry>, config_files: Seq<Path>)
    ensures
        has_config_change(changes, config_files) <==> exists|i: int|
            0 <= i < changes.len() && is_config_change(#[trigger] changes[i], config_files),
{
}

} // verus!
