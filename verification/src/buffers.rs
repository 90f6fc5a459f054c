//! The buffers that are open in a project.

use crate::effects::{Effect, ServerNotification};
use crate::ids::{EntityId, LanguageServerId, LanguageServerName, ProjectEntryId, WorktreeId};
use crate::map::{lemma_entry, lemma_has_entry, sorted};
use crate::model::{AppContext, Buffer, File, ProjectPath};
use crate::order::same;
use crate::path::{Part, Path};
use crate::project::{OpenBuffer, Project, ProjectClientState, ProjectError};
use crate::registration::{clear_effect, close_effect, register_effects, registered_snapshots};
use crate::seqs::{
    find_map, lemma_filter_map_has, lemma_filter_map_matches, lemma_filter_map_step,
    lemma_find_map_found, lemma_find_map_none, lemma_find_map_some, lemma_find_map_witness, lemma_take_all,
};
use crate::servers::id_for_adapter;
use crate::snapshots::{snapshot_map, without_buffer};
use vstd::prelude::*;

verus! {

/// The shortest delay before git diffs are recalculated, in milliseconds.
pub const MIN_DIFF_DELAY: u64 = 50;

pub open spec fn live_buffer_id(cx: AppContext) -> spec_fn((u64, OpenBuffer)) -> Option<EntityId> {
    |e: (u64, OpenBuffer)|
        match e.1.live(cx) {
            Some(b) => Some(b.entity_id),
            None => None,
        }
}

/// The live buffer of a file of a worktree.
pub open spec fn at_path(cx: AppContext, worktree: EntityId, path: Seq<Part>) -> spec_fn(
    (u64, OpenBuffer),
) -> Option<Buffer> {
    |e: (u64, OpenBuffer)|
        match e.1.live(cx) {
            Some(b) => match b.file {
                Some(file) => if file.worktree == worktree && file.path@ == path {
                    Some(b)
                } else {
                    None
                },
                None => None,
            },
            None => None,
        }
}

/// What has to be done to open a buffer.
#[derive(Debug)]
pub enum OpenAction {
    /// The buffer is open already.
    Ready(EntityId),
    /// The buffer is being loaded for someone else; wait for it.
    AwaitLoading,
    /// Load the file from disk.
    LoadLocal { buffer_id: u64, worktree: EntityId, path: Path },
    /// Ask the host to open the buffer.
    RequestFromHost { project_id: u64, worktree_id: u64, path: Path },
}

/// How a buffer is found by its id.
#[derive(Clone, Copy, Debug, PartialEq, Eq, Structural)]
pub enum OpenByIdAction {
    Ready(EntityId),
    /// Ask the host to open the buffer.
    RequestFromHost { project_id: u64, id: u64 },
}

/// Who saves a buffer.
#[derive(Debug)]
pub enum SaveAction {
    SaveLocally { worktree: EntityId, path: Path },
    RequestFromHost { worktree: EntityId },
}

/// Where the buffer at a path has to be loaded, there is an id for it, or a host to ask.
pub open spec fn can_load(project: Project, cx: AppContext, path: ProjectPath) -> bool {
    match project.worktree_of_id(cx, path.worktree_id) {
        Some(w) => project.buffer_at(cx, path) is Some
            || project.loading_buffers_by_path@.contains(path@) || (if w.is_local {
            project.next_buffer_id < u64::MAX
        } else {
            project.remote_id_of() is Some
        }),
        None => true,
    }
}

/// What opening the buffer at a path comes to: how the buffer is had, with the note that it is
/// being loaded.
pub open spec fn is_open_outcome(
    before: Project,
    after: Project,
    cx: AppContext,
    path: ProjectPath,
    r: Result<OpenAction, ProjectError>,
) -> bool {
    match before.worktree_of_id(cx, path.worktree_id) {
        None => r == Err::<OpenAction, ProjectError>(ProjectError::NoSuchWorktree)
            && after == before,
        Some(w) => match before.buffer_at(cx, path) {
            Some(b) => r == Ok::<OpenAction, ProjectError>(OpenAction::Ready(b.entity_id))
                && after == before,
            None => if before.loading_buffers_by_path@.contains(path@) {
                r == Ok::<OpenAction, ProjectError>(OpenAction::AwaitLoading)
                    && after == before
            } else {
                &&& after.loading_buffers_by_path@ == before.loading_buffers_by_path@.insert(path@)
                &&& after.next_buffer_id == (if w.is_local {
                    (before.next_buffer_id + 1) as u64
                } else {
                    before.next_buffer_id
                })
                &&& after == (Project {
                    loading_buffers_by_path: after.loading_buffers_by_path,
                    next_buffer_id: after.next_buffer_id,
                    ..before
                })
                &&& r == Ok::<OpenAction, ProjectError>(
                    if w.is_local {
                        OpenAction::LoadLocal {
                            buffer_id: before.next_buffer_id,
                            worktree: w.entity_id,
                            path: path.path,
                        }
                    } else {
                        OpenAction::RequestFromHost {
                            project_id: before.remote_id_of()->0,
                            worktree_id: w.id.0 as u64,
                            path: path.path,
                        }
                    },
                )
            },
        },
    }
}

impl Project {
    /// The live buffer with an id.
    pub open spec fn buffer_of_id(self, cx: AppContext, remote_id: u64) -> Option<Buffer> {
        if self.opened_buffers@.contains_key(remote_id) {
            self.opened_buffers@[remote_id].live(cx)
        } else {
            None
        }
    }

    /// The live buffer at a path.
    pub open spec fn buffer_at(self, cx: AppContext, path: ProjectPath) -> Option<Buffer> {
        match self.worktree_of_id(cx, path.worktree_id) {
            Some(w) => find_map(
                self.opened_buffers.entries(),
                at_path(cx, w.entity_id, path.path@),
            ),
            None => None,
        }
    }

    pub fn buffer_for_id<'a>(&self, remote_id: u64, cx: &'a AppContext) -> (r: Option<&'a Buffer>)
        ensures
            match r {
                Some(b) => self.buffer_of_id(*cx, remote_id) == Some(*b),
                None => self.buffer_of_id(*cx, remote_id) is None,
            },
    {
        match self.opened_buffers.get(&remote_id) {
            Some(open) => open.upgrade(cx),
            None => None,
        }
    }

    /// All live buffers, in the order of their ids.
    pub fn opened_buffers(&self, cx: &AppContext) -> (r: Vec<EntityId>)
        ensures
            r@ == self.opened_buffers.entries().filter_map(live_buffer_id(*cx)),
    {
        let mut r: Vec<EntityId> = Vec::new();
        let ghost s = self.opened_buffers.entries();
        let ghost f = live_buffer_id(*cx);
        let n: usize = self.opened_buffers.len();
        proof {
            lemma_take_all(s);
        }
        for i in 0..n
            invariant
                s == self.opened_buffers.entries(),
                n == s.len(),
                f == live_buffer_id(*cx),
                r@ == s.take(i as int).filter_map(f),
        {
            proof {
                lemma_filter_map_step(s, f, i as int);
            }
            if let Some(b) = self.opened_buffers.value_of(i).upgrade(cx) {
                r.push(b.entity_id);
            }
        }
        r
    }

    /// The live buffer at a path.
    pub fn get_open_buffer<'a>(&self, path: &ProjectPath, cx: &'a AppContext) -> (r: Option<
        &'a Buffer,
    >)
        ensures
            match r {
                Some(b) => self.buffer_at(*cx, *path) == Some(*b),
                None => self.buffer_at(*cx, *path) is None,
            },
    {
        let worktree = match self.worktree_for_id(path.worktree_id, cx) {
            Some(w) => w.entity_id,
            None => return None,
        };
        let ghost s = self.opened_buffers.entries();
        let ghost f = at_path(*cx, worktree, path.path@);
        let n: usize = self.opened_buffers.len();
        for i in 0..n
            invariant
                s == self.opened_buffers.entries(),
                n == s.len(),
                f == at_path(*cx, worktree, path.path@),
                self.worktree_of_id(*cx, path.worktree_id) is Some,
                self.worktree_of_id(*cx, path.worktree_id)->0.entity_id == worktree,
                forall|j: int| 0 <= j < i ==> f(#[trigger] s[j]) is None,
        {
            assert(s[i as int].1 == self.opened_buffers.entries()[i as int].1);
            if let Some(b) = self.opened_buffers.value_of(i).upgrade(cx) {
                if let Some(file) = &b.file {
                    if file.worktree == worktree && same(&file.path, &path.path) {
                        proof {
                            lemma_find_map_found(s, f, i as int);
                        }
                        return Some(b);
                    }
                }
            }
        }
        proof {
            lemma_find_map_none(s, f);
        }
        None
    }

    pub fn has_open_buffer(&self, path: &ProjectPath, cx: &AppContext) -> (r: bool)
        ensures
            r == (self.buffer_at(*cx, *path) is Some),
    {
        self.get_open_buffer(path, cx).is_some()
    }

    /// Takes an id for a new buffer, which only the host can create.
    pub fn create_buffer(&mut self) -> (r: Result<u64, ProjectError>)
        requires
            !old(self).is_guest() ==> old(self).next_buffer_id < u64::MAX,
        ensures
            r == (if old(self).is_guest() {
                Err::<u64, ProjectError>(ProjectError::GuestsCannotCreateBuffers)
            } else {
                Ok::<u64, ProjectError>(old(self).next_buffer_id)
            }),
            *final(self) == (if old(self).is_guest() {
                *old(self)
            } else {
                Project { next_buffer_id: (old(self).next_buffer_id + 1) as u64, ..*old(self) }
            }),
    {
        if self.is_remote() {
            return Err(ProjectError::GuestsCannotCreateBuffers);
        }
        let id: u64 = self.next_buffer_id;
        self.next_buffer_id = id + 1;
        Ok(id)
    }

    /// Finds out how the buffer at a path is opened, and notes that it is being loaded.
    pub fn open_buffer(&mut self, path: ProjectPath, cx: &AppContext) -> (r: Result<
        OpenAction,
        ProjectError,
    >)
        requires
            can_load(*old(self), *cx, path),
        ensures
            is_open_outcome(*old(self), *final(self), *cx, path, r),
    {
        let worktree = match self.worktree_for_id(path.worktree_id, cx) {
            Some(w) => w,
            None => return Err(ProjectError::NoSuchWorktree),
        };
        if let Some(b) = self.get_open_buffer(&path, cx) {
            return Ok(OpenAction::Ready(b.entity_id));
        }
        if self.loading_buffers_by_path.contains(&path) {
            return Ok(OpenAction::AwaitLoading);
        }
        self.loading_buffers_by_path.insert(path.clone());
        if worktree.is_local {
            let buffer_id: u64 = self.next_buffer_id;
            self.next_buffer_id = buffer_id + 1;
            Ok(OpenAction::LoadLocal { buffer_id, worktree: worktree.entity_id, path: path.path })
        } else {
            let project_id: u64 = self.remote_id().unwrap();
            Ok(
                OpenAction::RequestFromHost {
                    project_id,
                    worktree_id: worktree.id.to_proto(),
                    path: path.path,
                },
            )
        }
    }

    /// Notes that a buffer is no longer being loaded.
    pub fn finish_loading_buffer(&mut self, path: &ProjectPath)
        ensures
            final(self).loading_buffers_by_path@ == old(self).loading_buffers_by_path@.remove(
                path@,
            ),
            *final(self) == (Project {
                loading_buffers_by_path: final(self).loading_buffers_by_path,
                ..*old(self)
            }),
    {
        self.loading_buffers_by_path.remove(path);
    }

    /// The path of the project that an absolute path stands for.
    pub fn open_local_buffer(&self, abs_path: &Path, cx: &AppContext) -> (r: Result<
        ProjectPath,
        ProjectError,
    >)
        ensures
            match (self.worktree_containing(*cx, abs_path@), r) {
                (Some(w), Ok(p)) => p.worktree_id == w.id && p.path@ == abs_path@.skip(
                    w.abs_path@.len() as int,
                ),
                (None, Err(e)) => e == ProjectError::NoSuchPath,
                _ => false,
            },
    {
        match self.find_local_worktree(abs_path, cx) {
            Some((w, rest)) => Ok(ProjectPath { worktree_id: w.id, path: rest }),
            None => Err(ProjectError::NoSuchPath),
        }
    }

    /// Notes that a server works on a worktree that was created for a document of its. The document
    /// is the root of the worktree.
    pub fn add_worktree_for_server(
        &mut self,
        worktree_id: WorktreeId,
        name: LanguageServerName,
        id: LanguageServerId,
    ) -> (r: ProjectPath)
        ensures
            r.worktree_id == worktree_id && r.path@ == Seq::<Part>::empty(),
            final(self).language_server_ids@ == old(self).language_server_ids@.insert(
                (worktree_id, name@),
                id,
            ),
            *final(self) == (Project {
                language_server_ids: final(self).language_server_ids,
                ..*old(self)
            }),
    {
        self.language_server_ids.insert((worktree_id, name), id);
        ProjectPath { worktree_id, path: Path::empty() }
    }

    /// Finds out how the buffer with an id is opened.
    pub fn open_buffer_by_id(&self, id: u64, cx: &AppContext) -> (r: Result<
        OpenByIdAction,
        ProjectError,
    >)
        ensures
            r == (match self.buffer_of_id(*cx, id) {
                Some(b) => Ok::<OpenByIdAction, ProjectError>(OpenByIdAction::Ready(b.entity_id)),
                None => match self.client_state {
                    Some(ProjectClientState::Remote { remote_id, .. }) => Ok::<
                        OpenByIdAction,
                        ProjectError,
                    >(OpenByIdAction::RequestFromHost { project_id: remote_id, id }),
                    _ => Err::<OpenByIdAction, ProjectError>(ProjectError::NoSuchBuffer(id)),
                },
            }),
    {
        if let Some(b) = self.buffer_for_id(id, cx) {
            return Ok(OpenByIdAction::Ready(b.entity_id));
        }
        match self.client_state {
            Some(ProjectClientState::Remote { remote_id, .. }) => Ok(
                OpenByIdAction::RequestFromHost { project_id: remote_id, id },
            ),
            _ => Err(ProjectError::NoSuchBuffer(id)),
        }
    }

    /// Finds out who saves a buffer.
    pub fn save_buffer(&self, buffer: &Buffer, cx: &AppContext) -> (r: Result<
        SaveAction,
        ProjectError,
    >)
        ensures
            r == save_action(*cx, *buffer),
    {
        match &buffer.file {
            None => Err(ProjectError::BufferHasNoFile),
            Some(file) => match cx.worktree(file.worktree) {
                None => Err(ProjectError::NoSuchWorktree),
                Some(w) => {
                    if w.is_local {
                        Ok(
                            SaveAction::SaveLocally {
                                worktree: file.worktree,
                                path: file.path.clone(),
                            },
                        )
                    } else {
                        Ok(SaveAction::RequestFromHost { worktree: file.worktree })
                    }
                },
            },
        }
    }
}

impl Project {
    /// What opening a path gives once its buffer is open: the entry that the buffer's file is.
    pub fn open_path(&self, buffer: &Buffer) -> (r: Result<
        (ProjectEntryId, EntityId),
        ProjectError,
    >)
        ensures
            r == (match buffer.entry_id_of() {
                Some(id) => Ok::<(ProjectEntryId, EntityId), ProjectError>((id, buffer.entity_id)),
                None => Err::<(ProjectEntryId, EntityId), ProjectError>(ProjectError::NoSuchEntry),
            }),
    {
        match buffer.entry_id() {
            Some(id) => Ok((id, buffer.entity_id)),
            None => Err(ProjectError::NoSuchEntry),
        }
    }

    /// Finds out where a document that a server names is opened. Where it lies in no worktree, one
    /// has to be created for it.
    pub fn open_local_buffer_via_lsp(&self, abs_path: Option<&Path>, cx: &AppContext) -> (r: Result<
        Option<ProjectPath>,
        ProjectError,
    >)
        ensures
            match abs_path {
                None => r == Err::<Option<ProjectPath>, ProjectError>(ProjectError::UriIsNotAFile),
                Some(abs_path) => match (self.worktree_containing(*cx, abs_path@), r) {
                    (Some(w), Ok(Some(p))) => p.worktree_id == w.id && p.path@ == abs_path@.skip(
                        w.abs_path@.len() as int,
                    ),
                    (None, Ok(None)) => true,
                    _ => false,
                },
            },
    {
        match abs_path {
            None => Err(ProjectError::UriIsNotAFile),
            Some(abs_path) => match self.find_local_worktree(abs_path, cx) {
                Some((w, rest)) => Ok(Some(ProjectPath { worktree_id: w.id, path: rest })),
                None => Ok(None),
            },
        }
    }

    /// Finds out who saves each of several buffers.
    pub fn save_buffers(&self, buffers: &Vec<EntityId>, cx: &AppContext) -> (r: Vec<
        Result<SaveAction, ProjectError>,
    >)
        ensures
            r@ == buffers@.filter_map(saved_by(*cx)),
    {
        let mut r: Vec<Result<SaveAction, ProjectError>> = Vec::new();
        let ghost f = saved_by(*cx);
        proof {
            lemma_take_all(buffers@);
        }
        for i in 0..buffers.len()
            invariant
                f == saved_by(*cx),
                r@ == buffers@.take(i as int).filter_map(f),
        {
            proof {
                lemma_filter_map_step(buffers@, f, i as int);
            }
            if let Some(b) = cx.buffer(buffers[i]) {
                r.push(self.save_buffer(b, cx));
            }
        }
        r
    }

    /// Begins to save a buffer under another path. Its servers are told that its former file, if
    /// that lies here, is closed. What comes back is the worktree of the path and the path below
    /// its root; where there is none, a worktree has to be created.
    pub fn save_buffer_as(
        &mut self,
        buffer: &Buffer,
        abs_path: &Path,
        cx: &AppContext,
        out: &mut Vec<Effect>,
    ) -> (r: Option<(EntityId, Path)>)
        requires
            old(self).snapshots_ordered(),
        ensures
            final(self).snapshots_ordered(),
            match (old(self).worktree_containing(*cx, abs_path@), r) {
                (Some(w), Some((id, rest))) => id == w.entity_id && rest@ == abs_path@.skip(
                    w.abs_path@.len() as int,
                ),
                (None, None) => true,
                _ => false,
            },
            match buffer.file {
                Some(file) if file.is_local => {
                    &&& snapshot_map(final(self).buffer_snapshots) == without_buffer(
                        snapshot_map(old(self).buffer_snapshots),
                        buffer.remote_id,
                    )
                    &&& final(out)@ == old(out)@ + close_effects(*old(self), *buffer, file)
                },
                _ => *final(self) == *old(self) && final(out)@ == old(out)@,
            },
            *final(self) == (Project {
                buffer_snapshots: final(self).buffer_snapshots,
                ..*old(self)
            }),
    {
        let r = self.find_or_create_local_worktree(abs_path, cx);
        if let Some(file) = &buffer.file {
            if file.is_local {
                self.unregister_buffer_from_language_servers(buffer, file, out);
                assert(out@ =~= old(out)@ + close_effects(*old(self), *buffer, *file));
            }
        }
        r
    }
}

/// Who saves a buffer.
pub open spec fn save_action(cx: AppContext, buffer: Buffer) -> Result<SaveAction, ProjectError> {
    match buffer.file {
        None => Err(ProjectError::BufferHasNoFile),
        Some(file) => match cx.live_worktree(file.worktree) {
            None => Err(ProjectError::NoSuchWorktree),
            Some(w) => Ok(
                if w.is_local {
                    SaveAction::SaveLocally { worktree: file.worktree, path: file.path }
                } else {
                    SaveAction::RequestFromHost { worktree: file.worktree }
                },
            ),
        },
    }
}

pub open spec fn saved_by(cx: AppContext) -> spec_fn(EntityId) -> Option<
    Result<SaveAction, ProjectError>,
> {
    |id: EntityId|
        match cx.live_buffer(id) {
            Some(b) => Some(save_action(cx, b)),
            None => None,
        }
}

/// How a buffer leaves the servers that know it under a local file.
pub open spec fn close_effects(project: Project, buffer: Buffer, file: File) -> Seq<Effect> {
    (match buffer.language {
        Some(language) => language.lsp_adapters@.filter_map(
            id_for_adapter(project.language_server_ids@, file.worktree_id),
        ),
        None => Seq::empty(),
    }).map_values(clear_effect(buffer.entity_id)) + project.servers_of_buffer(buffer).map_values(
        close_effect(file.abs_path),
    )
}

impl Buffer {
    pub open spec fn entry_id_of(self) -> Option<ProjectEntryId> {
        match self.file {
            Some(file) => if file.is_deleted {
                None
            } else {
                Some(file.entry_id)
            },
            None => None,
        }
    }
}

/// What can be opened from a project.
pub trait Item {
    /// The entry of the project that the item was opened from.
    fn entry_id(&self) -> Option<ProjectEntryId>;

    /// The path that the item was opened from.
    fn project_path(&self) -> Option<ProjectPath>;
}

impl Item for Buffer {
    fn entry_id(&self) -> (r: Option<ProjectEntryId>)
        ensures
            r == self.entry_id_of(),
    {
        match &self.file {
            Some(file) => file.project_entry_id(),
            None => None,
        }
    }

    fn project_path(&self) -> (r: Option<ProjectPath>)
        ensures
            r == (match self.file {
                Some(file) => Some(ProjectPath { worktree_id: file.worktree_id, path: file.path }),
                None => None,
            }),
    {
        match &self.file {
            Some(file) => Some(
                ProjectPath { worktree_id: file.worktree_id, path: file.path.clone() },
            ),
            None => None,
        }
    }
}

/// What a request to recalculate git diffs leads to: with a configured delay the calculation waits
/// at least that long after the last request, without one it comes with the first request.
pub open spec fn diff_effects(is_first: bool, debounce: Option<u64>) -> Seq<Effect> {
    match debounce {
        Some(delay) => seq![
            Effect::DebounceDiffRecalculation {
                delay: if delay < MIN_DIFF_DELAY {
                    MIN_DIFF_DELAY
                } else {
                    delay
                },
            },
        ],
        None => if is_first {
            seq![Effect::DeferDiffRecalculation]
        } else {
            Seq::empty()
        },
    }
}

impl Project {
    /// Notes that the git diff of a buffer has to be recalculated.
    pub fn request_buffer_diff_recalculation(
        &mut self,
        buffer: EntityId,
        gutter_debounce: Option<u64>,
        out: &mut Vec<Effect>,
    )
        ensures
            final(self).buffers_needing_diff@ == old(self).buffers_needing_diff@.insert(buffer),
            *final(self) == (Project {
                buffers_needing_diff: final(self).buffers_needing_diff,
                ..*old(self)
            }),
            final(out)@ == old(out)@ + diff_effects(
                final(self).buffers_needing_diff.items().len() == 1,
                gutter_debounce,
            ),
    {
        self.buffers_needing_diff.insert(buffer);
        match gutter_debounce {
            Some(delay) => {
                let delay: u64 = if delay < MIN_DIFF_DELAY {
                    MIN_DIFF_DELAY
                } else {
                    delay
                };
                out.push(Effect::DebounceDiffRecalculation { delay });
            },
            None => {
                if self.buffers_needing_diff.len() == 1 {
                    out.push(Effect::DeferDiffRecalculation);
                }
            },
        }
        assert(out@ =~= old(out)@ + diff_effects(
            self.buffers_needing_diff.items().len() == 1,
            gutter_debounce,
        ));
    }

    /// Takes the buffers whose git diffs have to be recalculated.
    pub fn recalculate_buffer_diffs(&mut self) -> (r: Vec<EntityId>)
        ensures
            r@ == old(self).buffers_needing_diff.items(),
            final(self).buffers_needing_diff@ == Set::<EntityId>::empty(),
            *final(self) == (Project {
                buffers_needing_diff: final(self).buffers_needing_diff,
                ..*old(self)
            }),
    {
        let mut r: Vec<EntityId> = Vec::new();
        let n: usize = self.buffers_needing_diff.len();
        let ghost s = self.buffers_needing_diff.items();
        for i in 0..n
            invariant
                *self == *old(self),
                s == self.buffers_needing_diff.items(),
                n == s.len(),
                r@ == s.take(i as int),
        {
            r.push(*self.buffers_needing_diff.item(i));
            assert(r@ =~= s.take(i + 1));
        }
        assert(s.take(n as int) =~= s);
        self.buffers_needing_diff.clear();
        r
    }

    /// What follows a recalculation of git diffs: another one if buffers have come to need it,
    /// otherwise the views of the live buffers are drawn anew.
    pub fn after_diffs_recalculated(
        &self,
        buffers: &Vec<EntityId>,
        cx: &AppContext,
        out: &mut Vec<Effect>,
    )
        ensures
            final(out)@ == old(out)@ + (if self.buffers_needing_diff@ == Set::<EntityId>::empty() {
                buffers@.filter_map(
                    |id: EntityId|
                        match cx.live_buffer(id) {
                            Some(b) => Some(Effect::NotifyBuffer(id)),
                            None => None,
                        },
                )
            } else {
                seq![Effect::DeferDiffRecalculation]
            }),
    {
        if !self.buffers_needing_diff.is_empty() {
            out.push(Effect::DeferDiffRecalculation);
            assert(out@ =~= old(out)@ + seq![Effect::DeferDiffRecalculation]);
            return;
        }
        let ghost f = |id: EntityId|
            match cx.live_buffer(id) {
                Some(b) => Some(Effect::NotifyBuffer(id)),
                None => None,
            };
        proof {
            lemma_take_all(buffers@);
            assert(out@ + Seq::<Effect>::empty() =~= out@);
        }
        for i in 0..buffers.len()
            invariant
                f == (|id: EntityId|
                    match cx.live_buffer(id) {
                        Some(b) => Some(Effect::NotifyBuffer(id)),
                        None => None,
                    }),
                out@ == old(out)@ + buffers@.take(i as int).filter_map(f),
        {
            let ghost done = buffers@.take(i as int).filter_map(f);
            proof {
                lemma_filter_map_step(buffers@, f, i as int);
            }
            if cx.buffer(buffers[i]).is_some() {
                out.push(Effect::NotifyBuffer(buffers[i]));
                assert(out@ =~= old(out)@ + done.push(Effect::NotifyBuffer(buffers@[i as int])));
            }
        }
    }
}

/// The entry for a buffer: the participants of a shared project hold on to their buffers.
pub open spec fn entry_for(project: Project, buffer: EntityId) -> OpenBuffer {
    if project.client_state is Some {
        OpenBuffer::Strong(buffer)
    } else {
        OpenBuffer::Weak(buffer)
    }
}

impl Project {
    /// Enters a buffer. What waited for it is applied. A guest that has the buffer already keeps
    /// it; a host must not have it. What comes back tells whether the registration is to be
    /// finished once the language of the buffer has been looked for.
    pub fn register_buffer(
        &mut self,
        buffer: &Buffer,
        gutter_debounce: Option<u64>,
        cx: &AppContext,
        out: &mut Vec<Effect>,
    ) -> (r: Result<bool, ProjectError>)
        ensures
            final(self).buffers_needing_diff@ == old(self).buffers_needing_diff@.insert(
                buffer.entity_id,
            ),
            ({
                let id = buffer.remote_id;
                let known = old(self).buffer_of_id(*cx, id) is Some;
                let first = old(out)@ + diff_effects(
                    final(self).buffers_needing_diff.items().len() == 1,
                    gutter_debounce,
                ) + seq![Effect::SetLanguageRegistry(buffer.entity_id)];
                if known {
                    &&& *final(self) == (Project {
                        buffers_needing_diff: final(self).buffers_needing_diff,
                        ..*old(self)
                    })
                    &&& final(out)@ == first
                    &&& r == (if old(self).is_guest() {
                        Ok::<bool, ProjectError>(false)
                    } else {
                        Err::<bool, ProjectError>(ProjectError::BufferAlreadyRegistered(id))
                    })
                } else {
                    &&& r == Ok::<bool, ProjectError>(true)
                    &&& final(self).opened_buffers@ == old(self).opened_buffers@.insert(
                        id,
                        entry_for(*old(self), buffer.entity_id),
                    )
                    &&& match buffer.file {
                        Some(file) => if file.is_local {
                            &&& final(self).local_buffer_ids_by_path@ == old(
                                self,
                            ).local_buffer_ids_by_path@.insert(
                                (ProjectPath { worktree_id: file.worktree_id, path: file.path })@,
                                id,
                            )
                            &&& final(self).local_buffer_ids_by_entry_id@ == old(
                                self,
                            ).local_buffer_ids_by_entry_id@.insert(file.entry_id, id)
                        } else {
                            final(self).local_buffer_ids_by_path == old(
                                self,
                            ).local_buffer_ids_by_path && final(self).local_buffer_ids_by_entry_id
                                == old(self).local_buffer_ids_by_entry_id
                        },
                        None => final(self).local_buffer_ids_by_path == old(
                            self,
                        ).local_buffer_ids_by_path && final(self).local_buffer_ids_by_entry_id
                            == old(self).local_buffer_ids_by_entry_id,
                    }
                    &&& *final(self) == (Project {
                        buffers_needing_diff: final(self).buffers_needing_diff,
                        opened_buffers: final(self).opened_buffers,
                        local_buffer_ids_by_path: final(self).local_buffer_ids_by_path,
                        local_buffer_ids_by_entry_id: final(self).local_buffer_ids_by_entry_id,
                        ..*old(self)
                    })
                    &&& final(out)@ == first + waiting_effects(
                        *old(self),
                        id,
                        buffer.entity_id,
                    ) + seq![
                        Effect::ObserveBuffer(buffer.entity_id),
                        Effect::DetectLanguage(buffer.entity_id),
                    ]
                }
            }),
    {
        self.request_buffer_diff_recalculation(buffer.entity_id, gutter_debounce, out);
        out.push(Effect::SetLanguageRegistry(buffer.entity_id));
        let ghost first = out@;
        proof {
            assert(first =~= old(out)@ + diff_effects(
                self.buffers_needing_diff.items().len() == 1,
                gutter_debounce,
            ) + seq![Effect::SetLanguageRegistry(buffer.entity_id)]);
        }
        let id: u64 = buffer.remote_id;
        if self.buffer_for_id(id, cx).is_some() {
            if self.is_remote() {
                return Ok(false);
            } else {
                return Err(ProjectError::BufferAlreadyRegistered(id));
            }
        }
        let entry = if self.client_state.is_some() {
            OpenBuffer::Strong(buffer.entity_id)
        } else {
            OpenBuffer::Weak(buffer.entity_id)
        };
        let former = self.opened_buffers.insert(id, entry);
        if let Some(OpenBuffer::Operations(operations)) = former {
            out.push(Effect::ApplyOperations { buffer: buffer.entity_id, operations });
        }
        out.push(Effect::ObserveBuffer(buffer.entity_id));
        if let Some(file) = &buffer.file {
            if file.is_local {
                self.local_buffer_ids_by_path.insert(
                    ProjectPath { worktree_id: file.worktree_id, path: file.path.clone() },
                    id,
                );
                self.local_buffer_ids_by_entry_id.insert(file.entry_id, id);
            }
        }
        out.push(Effect::DetectLanguage(buffer.entity_id));
        proof {
            assert(out@ =~= first + waiting_effects(*old(self), id, buffer.entity_id) + seq![
                Effect::ObserveBuffer(buffer.entity_id),
                Effect::DetectLanguage(buffer.entity_id),
            ]);
        }
        Ok(true)
    }

    /// Opens a buffer that has been entered in the running servers of its language, and wakes those
    /// who wait for it.
    pub fn finish_registering_buffer(&mut self, buffer: &Buffer, out: &mut Vec<Effect>)
        requires
            old(self).snapshots_ordered(),
        ensures
            final(self).snapshots_ordered(),
            *final(self) == (Project {
                buffer_snapshots: final(self).buffer_snapshots,
                ..*old(self)
            }),
            ({
                let (known, effects) = match buffer.file {
                    Some(file) => if file.is_local {
                        let shown = seq![
                            Effect::ShowWorktreeDiagnostics { buffer: buffer.entity_id },
                        ];
                        match buffer.language {
                            Some(language) => {
                                let n = language.lsp_adapters@.len() as int;
                                (
                                    registered_snapshots(*old(self), *buffer, file, language, n),
                                    shown + register_effects(
                                        *old(self),
                                        *buffer,
                                        file,
                                        language,
                                        n,
                                    ),
                                )
                            },
                            None => (snapshot_map(old(self).buffer_snapshots), shown),
                        }
                    } else {
                        (snapshot_map(old(self).buffer_snapshots), Seq::empty())
                    },
                    None => (snapshot_map(old(self).buffer_snapshots), Seq::empty()),
                };
                &&& snapshot_map(final(self).buffer_snapshots) == known
                &&& final(out)@ == old(out)@ + effects + seq![
                    Effect::RegisterWithCopilot(buffer.entity_id),
                    Effect::WakeBufferWaiters,
                ]
            }),
    {
        self.register_buffer_with_language_servers(buffer, out);
        let ghost mid = out@;
        out.push(Effect::RegisterWithCopilot(buffer.entity_id));
        out.push(Effect::WakeBufferWaiters);
        proof {
            assert(out@ =~= mid + seq![
                Effect::RegisterWithCopilot(buffer.entity_id),
                Effect::WakeBufferWaiters,
            ]);
            let shown = seq![Effect::ShowWorktreeDiagnostics { buffer: buffer.entity_id }];
            assert(old(out)@.push(shown[0]) =~= old(out)@ + shown);
            if buffer.file is Some && buffer.language is Some {
                let language = buffer.language->0;
                let n = language.lsp_adapters@.len() as int;
                let e = register_effects(*old(self), *buffer, buffer.file->0, language, n);
                assert(old(out)@ + shown + e =~= old(out)@ + (shown + e));
            }
            assert(old(out)@ + Seq::<Effect>::empty() =~= old(out)@);
        }
    }
}

/// What waited for a buffer is applied to it.
pub open spec fn waiting_effects(project: Project, id: u64, buffer: EntityId) -> Seq<Effect> {
    if project.opened_buffers@.contains_key(id) {
        match project.opened_buffers@[id] {
            OpenBuffer::Operations(operations) => seq![
                Effect::ApplyOperations { buffer, operations },
            ],
            _ => Seq::empty(),
        }
    } else {
        Seq::empty()
    }
}

/// A buffer that has been entered while it is alive is found by its id.
pub proof fn registered_buffer_is_found(before: Project, after: Project, cx: AppContext, b: Buffer)
    requires
        after.opened_buffers@ == before.opened_buffers@.insert(
            b.remote_id,
            entry_for(before, b.entity_id),
        ),
        cx.live_buffer(b.entity_id) == Some(b),
    ensures
        after.buffer_of_id(cx, b.remote_id) == Some(b),
{
}

/// While a buffer is open or being loaded, opening its path again starts no second load: the caller
/// gets the same buffer, or waits for the load that is under way. Nothing is noted anew.
pub proof fn second_opening_starts_no_load(
    before: Project,
    between: Project,
    after: Project,
    cx: AppContext,
    path: ProjectPath,
    first: Result<OpenAction, ProjectError>,
    second: Result<OpenAction, ProjectError>,
)
    requires
        is_open_outcome(before, between, cx, path, first),
        is_open_outcome(between, after, cx, path, second),
    ensures
        after == between,
        match first {
            Ok(OpenAction::Ready(b)) => second == first,
            Ok(_) => second == Ok::<OpenAction, ProjectError>(OpenAction::AwaitLoading),
            Err(_) => second == first && between == before,
        },
{
    assert(between.worktrees == before.worktrees);
    assert(between.opened_buffers == before.opened_buffers);
    assert(between.worktree_of_id(cx, path.worktree_id) == before.worktree_of_id(
        cx,
        path.worktree_id,
    ));
    assert(between.buffer_at(cx, path) == before.buffer_at(cx, path));
}

/// Once a buffer has been loaded and entered, whoever opens its path meets it.
pub proof fn loaded_buffer_is_met_again(
    before: Project,
    after: Project,
    cx: AppContext,
    path: ProjectPath,
    b: Buffer,
)
    requires
        sorted(before.opened_buffers.entries()),
        sorted(after.opened_buffers.entries()),
        before.buffer_at(cx, path) is None,
        after.opened_buffers@ == before.opened_buffers@.insert(
            b.remote_id,
            entry_for(before, b.entity_id),
        ),
        after.worktrees == before.worktrees,
        cx.live_buffer(b.entity_id) == Some(b),
        b.file matches Some(file) && file.path@ == path.path@ && match before.worktree_of_id(
            cx,
            path.worktree_id,
        ) {
            Some(w) => file.worktree == w.entity_id,
            None => false,
        },
    ensures
        after.buffer_at(cx, path) == Some(b),
        forall|last: Project, r: Result<OpenAction, ProjectError>| #[trigger]
            is_open_outcome(after, last, cx, path, r) ==> last == after && r == Ok::<
                OpenAction,
                ProjectError,
            >(OpenAction::Ready(b.entity_id)),
{
    let w = before.worktree_of_id(cx, path.worktree_id)->0;
    assert(after.worktree_of_id(cx, path.worktree_id) == Some(w));
    let f = at_path(cx, w.entity_id, path.path@);
    let old_entries = before.opened_buffers.entries();
    let es = after.opened_buffers.entries();
    assert(after.opened_buffers@.contains_key(b.remote_id));
    let i = lemma_has_entry(es, b.remote_id);
    assert(f(es[i]) == Some(b));
    assert forall|j: int| 0 <= j < es.len() && (#[trigger] f(es[j])) is Some implies f(es[j])
        == Some(b) by {
        lemma_entry(es, j);
        if es[j].0 != b.remote_id {
            assert(before.opened_buffers@.contains_key(es[j].0));
            let k = lemma_has_entry(old_entries, es[j].0);
            assert(old_entries[k] == es[j]);
            lemma_find_map_some(old_entries, f, k);
        }
    }
    lemma_find_map_some(es, f, i);
    let found = lemma_find_map_witness(es, f);
    assert(f(es[found]) == Some(b));
}

/// Exactly the live buffers are listed, in the order of their ids.
pub proof fn live_buffers_are_listed(
    es: Seq<(u64, OpenBuffer)>,
    cx: AppContext,
    listed: Seq<EntityId>,
)
    requires
        listed == es.filter_map(live_buffer_id(cx)),
    ensures
        ({
            let live = es.filter(|e: (u64, OpenBuffer)| e.1.live(cx) is Some);
            &&& listed.len() == live.len()
            &&& forall|k: int|
                0 <= k < listed.len() ==> #[trigger] listed[k] == live[k].1.live(cx)->0.entity_id
        }),
{
    let p = |e: (u64, OpenBuffer)| e.1.live(cx) is Some;
    lemma_filter_map_matches(es, live_buffer_id(cx), p);
}

/// A buffer that only has operations waiting for it is not alive; any other one is alive as long as
/// the editor has it.
pub proof fn waiting_operations_are_no_buffer(open: OpenBuffer, cx: AppContext)
    ensures
        open is Operations ==> open.live(cx) is None,
        open is Strong ==> open.live(cx) == cx.live_buffer(open->Strong_0),
        open is Weak ==> open.live(cx) == cx.live_buffer(open->Weak_0),
{
}

/// The buffer at a path is a live one whose file has that path in that worktree, and there is one
/// whenever some live buffer does.
pub proof fn buffers_are_found_by_their_path(project: Project, cx: AppContext, path: ProjectPath)
    requires
        project.worktree_of_id(cx, path.worktree_id) is Some,
    ensures
        ({
            let es = project.opened_buffers.entries();
            let worktree = project.worktree_of_id(cx, path.worktree_id)->0.entity_id;
            let found = project.buffer_at(cx, path);
            &&& found is Some ==> found->0.file is Some && found->0.file->0.worktree == worktree
                && found->0.file->0.path@ == path.path@ && exists|i: int|
                0 <= i < es.len() && (#[trigger] es[i]).1.live(cx) == found
            &&& found is None ==> forall|i: int|
                0 <= i < es.len() ==> !((#[trigger] es[i]).1.live(cx) matches Some(b) && (
                b.file matches Some(f) && f.worktree == worktree && f.path@ == path.path@))
        }),
{
    let es = project.opened_buffers.entries();
    let worktree = project.worktree_of_id(cx, path.worktree_id)->0.entity_id;
    let f = at_path(cx, worktree, path.path@);
    if find_map(es, f) is Some {
        let i = lemma_find_map_witness(es, f);
        assert(es[i].1.live(cx) == find_map(es, f));
    } else {
        assert forall|i: int| 0 <= i < es.len() implies !((#[trigger] es[i]).1.live(
            cx,
        ) matches Some(b) && (b.file matches Some(f) && f.worktree == worktree && f.path@
            == path.path@)) by {
            if f(es[i]) is Some {
                lemma_find_map_some(es, f, i);
            }
        }
    }
}

/// A path without a worktree is at no buffer.
pub proof fn buffers_lie_in_worktrees(project: Project, cx: AppContext, path: ProjectPath)
    requires
        project.worktree_of_id(cx, path.worktree_id) is None,
    ensures
        project.buffer_at(cx, path) is None,
{
}

/// The buffer with an id is the one that is entered under it, while that lives.
pub proof fn buffers_are_found_by_their_id(project: Project, cx: AppContext, id: u64)
    ensures
        project.buffer_of_id(cx, id) is Some <==> project.opened_buffers@.contains_key(id)
            && project.opened_buffers@[id].live(cx) is Some,
        project.buffer_of_id(cx, id) is Some ==> project.buffer_of_id(cx, id)
            == project.opened_buffers@[id].live(cx),
{
}

/// What is opened is what was asked for: the buffer that is open at the path, or the file at that
/// path of that worktree. A host asks its own disk; a guest asks its host.
pub proof fn what_is_asked_for_is_opened(
    before: Project,
    after: Project,
    cx: AppContext,
    path: ProjectPath,
    r: Result<OpenAction, ProjectError>,
)
    requires
        is_open_outcome(before, after, cx, path, r),
    ensures
        before.worktree_of_id(cx, path.worktree_id) is None <==> r is Err,
        r is Err ==> r->Err_0 is NoSuchWorktree && after == before,
        r is Ok && r->Ok_0 is Ready ==> before.buffer_at(cx, path) is Some && r->Ok_0->Ready_0
            == before.buffer_at(cx, path)->0.entity_id,
        r is Ok && before.buffer_at(cx, path) is Some ==> r->Ok_0 is Ready,
        r is Ok && r->Ok_0 is AwaitLoading ==> before.loading_buffers_by_path@.contains(path@),
        r is Ok && r->Ok_0 is LoadLocal ==> {
            let w = before.worktree_of_id(cx, path.worktree_id)->0;
            &&& w.is_local
            &&& r->Ok_0->worktree == w.entity_id
            &&& r->Ok_0->LoadLocal_path == path.path
            &&& r->Ok_0->buffer_id == before.next_buffer_id
            &&& before.next_buffer_id < u64::MAX ==> after.next_buffer_id > r->Ok_0->buffer_id
            &&& after.loading_buffers_by_path@.contains(path@)
        },
        r is Ok && r->Ok_0 is RequestFromHost ==> {
            let w = before.worktree_of_id(cx, path.worktree_id)->0;
            &&& !w.is_local
            &&& r->Ok_0->worktree_id == w.id.0 as u64
            &&& r->Ok_0->RequestFromHost_path == path.path
            &&& before.remote_id_of() is Some ==> r->Ok_0->project_id == before.remote_id_of()->0
            &&& after.loading_buffers_by_path@.contains(path@)
        },
{
}

/// Two files that are loaded one after the other get different ids.
pub proof fn each_load_gets_its_own_id(
    before: Project,
    between: Project,
    after: Project,
    cx: AppContext,
    a: ProjectPath,
    b: ProjectPath,
    first: Result<OpenAction, ProjectError>,
    second: Result<OpenAction, ProjectError>,
)
    requires
        can_load(before, cx, a),
        is_open_outcome(before, between, cx, a, first),
        is_open_outcome(between, after, cx, b, second),
        first is Ok && first->Ok_0 is LoadLocal,
        second is Ok && second->Ok_0 is LoadLocal,
    ensures
        first->Ok_0->buffer_id < second->Ok_0->buffer_id,
{
}

/// A buffer is saved where its file lies: here, under its path, if its worktree is on this disk, and
/// else by the host. Without a file, or without a worktree, it cannot be saved.
pub proof fn buffers_are_saved_to_their_file(cx: AppContext, buffer: Buffer)
    ensures
        buffer.file is None ==> save_action(cx, buffer) == Err::<SaveAction, ProjectError>(
            ProjectError::BufferHasNoFile,
        ),
        buffer.file is Some ==> {
            let file = buffer.file->0;
            let worktree = cx.live_worktree(file.worktree);
            &&& worktree is None ==> save_action(cx, buffer) == Err::<SaveAction, ProjectError>(
                ProjectError::NoSuchWorktree,
            )
            &&& worktree is Some && worktree->0.is_local ==> save_action(cx, buffer) == Ok::<
                SaveAction,
                ProjectError,
            >(SaveAction::SaveLocally { worktree: file.worktree, path: file.path })
            &&& worktree is Some && !worktree->0.is_local ==> save_action(cx, buffer) == Ok::<
                SaveAction,
                ProjectError,
            >(SaveAction::RequestFromHost { worktree: file.worktree })
        },
{
}

/// Of several buffers every live one is saved, in their order.
pub proof fn every_live_buffer_is_saved(
    cx: AppContext,
    buffers: Seq<EntityId>,
    r: Seq<Result<SaveAction, ProjectError>>,
)
    requires
        r == buffers.filter_map(saved_by(cx)),
    ensures
        ({
            let live = buffers.filter(|id: EntityId| cx.live_buffer(id) is Some);
            &&& r.len() == live.len()
            &&& forall|k: int|
                0 <= k < r.len() ==> #[trigger] r[k] == save_action(
                    cx,
                    cx.live_buffer(live[k])->0,
                )
        }),
{
    let p = |id: EntityId| cx.live_buffer(id) is Some;
    lemma_filter_map_matches(buffers, saved_by(cx), p);
}

/// When a buffer leaves its servers, its problems from each server of the worktree are cleared, and
/// each running server is told that the former document is closed.
pub proof fn leaving_buffers_are_closed(project: Project, buffer: Buffer, file: File)
    ensures
        forall|i: int|
            0 <= i < project.servers_of_buffer(buffer).len() ==> close_effects(
                project,
                buffer,
                file,
            ).contains(
                Effect::NotifyServer(
                    (#[trigger] project.servers_of_buffer(buffer)[i]).1.server_id,
                    ServerNotification::DidClose { document: file.abs_path },
                ),
            ),
        buffer.language is Some ==> forall|i: int|
            0 <= i < buffer.language->0.lsp_adapters@.len()
                && project.language_server_ids@.contains_key(
                (file.worktree_id, (#[trigger] buffer.language->0.lsp_adapters@[i]).name@),
            ) ==> close_effects(project, buffer, file).contains(
                Effect::ClearBufferDiagnostics {
                    buffer: buffer.entity_id,
                    server_id: project.language_server_ids@[(
                        file.worktree_id,
                        buffer.language->0.lsp_adapters@[i].name@,
                    )],
                },
            ),
{
    let f = id_for_adapter(project.language_server_ids@, file.worktree_id);
    let ids = match buffer.language {
        Some(language) => language.lsp_adapters@.filter_map(f),
        None => Seq::empty(),
    };
    let all = close_effects(project, buffer, file);
    assert forall|i: int| 0 <= i < project.servers_of_buffer(buffer).len() implies all.contains(
        Effect::NotifyServer(
            (#[trigger] project.servers_of_buffer(buffer)[i]).1.server_id,
            ServerNotification::DidClose { document: file.abs_path },
        ),
    ) by {
        assert(all[ids.len() + i] == close_effect(file.abs_path)(
            project.servers_of_buffer(buffer)[i],
        ));
    }
    if buffer.language is Some {
        let adapters = buffer.language->0.lsp_adapters@;
        assert forall|i: int|
            0 <= i < adapters.len() && project.language_server_ids@.contains_key(
                (file.worktree_id, (#[trigger] adapters[i]).name@),
            ) implies all.contains(
            Effect::ClearBufferDiagnostics {
                buffer: buffer.entity_id,
                server_id: project.language_server_ids@[(file.worktree_id, adapters[i].name@)],
            },
        ) by {
            lemma_filter_map_has(adapters, f, i);
            let id = f(adapters[i])->0;
            let k = choose|k: int| 0 <= k < ids.len() && ids[k] == id;
            assert(all[k] == clear_effect(buffer.entity_id)(ids[k]));
        }
    }
}

/// A deleted file has no entry; any other one has the entry that it was opened from.
pub proof fn deleted_files_have_no_entry(buffer: Buffer)
    ensures
        buffer.entry_id_of() is Some <==> buffer.file is Some && !buffer.file->0.is_deleted,
        buffer.entry_id_of() is Some ==> buffer.entry_id_of()->0 == buffer.file->0.entry_id,
{
}

/// With a configured delay the recalculation of diffs waits at least that long, and never less than
/// fifty milliseconds. Without one, only the first request leads to a calculation.
pub proof fn diffs_are_calculated_once(is_first: bool, debounce: Option<u64>)
    ensures
        debounce is Some ==> diff_effects(is_first, debounce).len() == 1 && (diff_effects(
            is_first,
            debounce,
        )[0] matches Effect::DebounceDiffRecalculation { delay } && delay >= 50 && delay
            >= debounce->0 && (delay == 50 || delay == debounce->0)),
        debounce is None && is_first ==> diff_effects(is_first, debounce) == seq![
            Effect::DeferDiffRecalculation,
        ],
        debounce is None && !is_first ==> diff_effects(is_first, debounce).len() == 0,
{
}

/// Participants of a shared project hold on to their buffers; otherwise a buffer lives only as long
/// as somebody else holds it.
pub proof fn shared_buffers_are_held(project: Project, buffer: EntityId)
    ensures
        project.client_state is Some ==> entry_for(project, buffer) == OpenBuffer::Strong(buffer),
        project.client_state is None ==> entry_for(project, buffer) == OpenBuffer::Weak(buffer),
{
}

/// Exactly the operations that waited under the id of a buffer are applied to it.
pub proof fn waiting_operations_are_applied(project: Project, id: u64, buffer: EntityId)
    ensures
        ({
            let waits = project.opened_buffers@.contains_key(id)
                && project.opened_buffers@[id] is Operations;
            &&& waits ==> waiting_effects(project, id, buffer) == seq![
                Effect::ApplyOperations {
                    buffer,
                    operations: project.opened_buffers@[id]->Operations_0,
                },
            ]
            &&& !waits ==> waiting_effects(project, id, buffer).len() == 0
        }),
{
}

} // verus!
