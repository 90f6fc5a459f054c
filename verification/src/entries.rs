//! Creating, copying, renaming and deleting the entries of worktrees.

use crate::effects::{Effect, Event};
use crate::ids::{EntityId, LanguageServerId, ProjectEntryId, WorktreeId};
use crate::model::{AppContext, ProjectPath, Worktree};
use crate::path::Path;
use crate::project::{Project, ProjectClientState, ProjectError};
use std::sync::Arc;
use vstd::prelude::*;

verus! {

/// What a guest asks the host to do with an entry.
#[allow(inconsistent_fields)]
#[derive(Debug, PartialEq, Eq)]
pub enum EntryRequest {
    Create { project_id: u64, worktree_id: u64, path: Path, is_directory: bool },
    Copy { project_id: u64, entry_id: u64, new_path: Path },
    Rename { project_id: u64, entry_id: u64, new_path: Path },
    Delete { project_id: u64, entry_id: u64 },
    Expand { project_id: u64, entry_id: u64 },
}

/// The counts of the problems at a path, as the host tells them.
#[derive(Debug, PartialEq, Eq)]
pub struct PathSummary {
    pub path: Path,
    pub language_server_id: u64,
    pub error_count: u32,
    pub warning_count: u32,
}

/// Who changes an entry.
#[derive(Debug, PartialEq, Eq)]
pub enum EntryAction {
    /// The worktree does it, which lies here.
    Local { worktree: EntityId },
    /// The host does it; its answer is then entered in the worktree.
    Remote { worktree: EntityId, request: EntryRequest },
}

/// Where the project is not a guest's, its worktree lies here.
pub open spec fn lies_here(project: Project, worktree: Option<Worktree>) -> bool {
    match worktree {
        Some(w) => !project.is_guest() ==> w.is_local,
        None => true,
    }
}

/// Who changes an entry of a worktree, if there is that worktree.
pub open spec fn entry_action(
    project: Project,
    worktree: Option<Worktree>,
    request: EntryRequest,
) -> Option<EntryAction> {
    match worktree {
        None => None,
        Some(w) => Some(
            if project.is_guest() {
                EntryAction::Remote { worktree: w.entity_id, request }
            } else {
                EntryAction::Local { worktree: w.entity_id }
            },
        ),
    }
}

impl Project {
    /// The id of the project that another participant hosts.
    fn host_id(&self) -> (r: Option<u64>)
        ensures
            r == (if self.is_guest() {
                self.remote_id_of()
            } else {
                None
            }),
    {
        match self.client_state {
            Some(ProjectClientState::Remote { remote_id, .. }) => Some(remote_id),
            _ => None,
        }
    }

    /// Finds out who creates a file or directory.
    pub fn create_entry(&self, project_path: &ProjectPath, is_directory: bool, cx: &AppContext) -> (r: Option<EntryAction>)
        requires
            lies_here(*self, self.worktree_of_id(*cx, project_path.worktree_id)),
        ensures
            r == entry_action(
                *self,
                self.worktree_of_id(*cx, project_path.worktree_id),
                EntryRequest::Create {
                    project_id: self.remote_id_of()->0,
                    worktree_id: project_path.worktree_id.0 as u64,
                    path: project_path.path,
                    is_directory,
                },
            ),
    {
        let worktree: EntityId = match self.worktree_for_id(project_path.worktree_id, cx) {
            Some(w) => w.entity_id,
            None => return None,
        };
        match self.host_id() {
            None => Some(EntryAction::Local { worktree }),
            Some(project_id) => Some(
                EntryAction::Remote {
                    worktree,
                    request: EntryRequest::Create {
                        project_id,
                        worktree_id: project_path.worktree_id.to_proto(),
                        path: project_path.path.clone(),
                        is_directory,
                    },
                },
            ),
        }
    }

    /// Finds out who copies an entry.
    pub fn copy_entry(&self, entry_id: ProjectEntryId, new_path: &Path, cx: &AppContext) -> (r: Option<EntryAction>)
        requires
            lies_here(*self, self.worktree_of_entry(*cx, entry_id)),
        ensures
            r == entry_action(
                *self,
                self.worktree_of_entry(*cx, entry_id),
                EntryRequest::Copy {
                    project_id: self.remote_id_of()->0,
                    entry_id: entry_id.0 as u64,
                    new_path: *new_path,
                },
            ),
    {
        let worktree: EntityId = match self.worktree_for_entry(entry_id, cx) {
            Some(w) => w.entity_id,
            None => return None,
        };
        match self.host_id() {
            None => Some(EntryAction::Local { worktree }),
            Some(project_id) => Some(
                EntryAction::Remote {
                    worktree,
                    request: EntryRequest::Copy {
                        project_id,
                        entry_id: entry_id.to_proto(),
                        new_path: new_path.clone(),
                    },
                },
            ),
        }
    }

    /// Finds out who renames an entry.
    pub fn rename_entry(&self, entry_id: ProjectEntryId, new_path: &Path, cx: &AppContext) -> (r: Option<EntryAction>)
        requires
            lies_here(*self, self.worktree_of_entry(*cx, entry_id)),
        ensures
            r == entry_action(
                *self,
                self.worktree_of_entry(*cx, entry_id),
                EntryRequest::Rename {
                    project_id: self.remote_id_of()->0,
                    entry_id: entry_id.0 as u64,
                    new_path: *new_path,
                },
            ),
    {
        let worktree: EntityId = match self.worktree_for_entry(entry_id, cx) {
            Some(w) => w.entity_id,
            None => return None,
        };
        match self.host_id() {
            None => Some(EntryAction::Local { worktree }),
            Some(project_id) => Some(
                EntryAction::Remote {
                    worktree,
                    request: EntryRequest::Rename {
                        project_id,
                        entry_id: entry_id.to_proto(),
                        new_path: new_path.clone(),
                    },
                },
            ),
        }
    }

    /// Finds out who deletes an entry, and announces that it goes.
    pub fn delete_entry(&self, entry_id: ProjectEntryId, cx: &AppContext, out: &mut Vec<Effect>) -> (r: Option<EntryAction>)
        requires
            lies_here(*self, self.worktree_of_entry(*cx, entry_id)),
        ensures
            r == entry_action(
                *self,
                self.worktree_of_entry(*cx, entry_id),
                EntryRequest::Delete {
                    project_id: self.remote_id_of()->0,
                    entry_id: entry_id.0 as u64,
                },
            ),
            final(out)@ == (if self.worktree_of_entry(*cx, entry_id) is Some {
                old(out)@.push(Effect::Emit(Event::DeletedEntry(entry_id)))
            } else {
                old(out)@
            }),
    {
        let worktree: EntityId = match self.worktree_for_entry(entry_id, cx) {
            Some(w) => w.entity_id,
            None => return None,
        };
        out.push(Effect::Emit(Event::DeletedEntry(entry_id)));
        match self.host_id() {
            None => Some(EntryAction::Local { worktree }),
            Some(project_id) => Some(
                EntryAction::Remote {
                    worktree,
                    request: EntryRequest::Delete { project_id, entry_id: entry_id.to_proto() },
                },
            ),
        }
    }

    /// Finds out who loads the contents of a directory.
    pub fn expand_entry(&self, worktree_id: WorktreeId, entry_id: ProjectEntryId, cx: &AppContext) -> (r: Option<EntryAction>)
        requires
            lies_here(*self, self.worktree_of_id(*cx, worktree_id)),
        ensures
            r == entry_action(
                *self,
                self.worktree_of_id(*cx, worktree_id),
                EntryRequest::Expand {
                    project_id: self.remote_id_of()->0,
                    entry_id: entry_id.0 as u64,
                },
            ),
    {
        let worktree: EntityId = match self.worktree_for_id(worktree_id, cx) {
            Some(w) => w.entity_id,
            None => return None,
        };
        match self.host_id() {
            None => Some(EntryAction::Local { worktree }),
            Some(project_id) => Some(
                EntryAction::Remote {
                    worktree,
                    request: EntryRequest::Expand { project_id, entry_id: entry_id.to_proto() },
                },
            ),
        }
    }

    /// The worktree that a guest wants a file or directory to be created in.
    pub fn handle_create_project_entry(&self, worktree_id: u64, cx: &AppContext) -> (r: Result<
        EntityId,
        ProjectError,
    >)
        ensures
            r == (match self.worktree_of_id(*cx, WorktreeId(worktree_id as usize)) {
                Some(w) => Ok::<EntityId, ProjectError>(w.entity_id),
                None => Err::<EntityId, ProjectError>(ProjectError::NoSuchWorktree),
            }),
    {
        match self.worktree_for_id(WorktreeId::from_proto(worktree_id), cx) {
            Some(w) => Ok(w.entity_id),
            None => Err(ProjectError::NoSuchWorktree),
        }
    }

    /// The worktree of an entry that a guest names.
    fn worktree_of_named_entry(&self, entry_id: u64, cx: &AppContext) -> (r: Result<
        EntityId,
        ProjectError,
    >)
        ensures
            r == (match self.worktree_of_entry(*cx, ProjectEntryId(entry_id as usize)) {
                Some(w) => Ok::<EntityId, ProjectError>(w.entity_id),
                None => Err::<EntityId, ProjectError>(ProjectError::NoSuchWorktree),
            }),
    {
        match self.worktree_for_entry(ProjectEntryId::from_proto(entry_id), cx) {
            Some(w) => Ok(w.entity_id),
            None => Err(ProjectError::NoSuchWorktree),
        }
    }

    /// The worktree of an entry that a guest wants to have renamed.
    pub fn handle_rename_project_entry(&self, entry_id: u64, cx: &AppContext) -> (r: Result<
        EntityId,
        ProjectError,
    >)
        ensures
            r == (match self.worktree_of_entry(*cx, ProjectEntryId(entry_id as usize)) {
                Some(w) => Ok::<EntityId, ProjectError>(w.entity_id),
                None => Err::<EntityId, ProjectError>(ProjectError::NoSuchWorktree),
            }),
    {
        self.worktree_of_named_entry(entry_id, cx)
    }

    /// The worktree of an entry that a guest wants to have copied.
    pub fn handle_copy_project_entry(&self, entry_id: u64, cx: &AppContext) -> (r: Result<
        EntityId,
        ProjectError,
    >)
        ensures
            r == (match self.worktree_of_entry(*cx, ProjectEntryId(entry_id as usize)) {
                Some(w) => Ok::<EntityId, ProjectError>(w.entity_id),
                None => Err::<EntityId, ProjectError>(ProjectError::NoSuchWorktree),
            }),
    {
        self.worktree_of_named_entry(entry_id, cx)
    }

    /// The worktree of an entry that a guest wants to have expanded.
    pub fn handle_expand_project_entry(&self, entry_id: u64, cx: &AppContext) -> (r: Result<
        EntityId,
        ProjectError,
    >)
        ensures
            r == (match self.worktree_of_entry(*cx, ProjectEntryId(entry_id as usize)) {
                Some(w) => Ok::<EntityId, ProjectError>(w.entity_id),
                None => Err::<EntityId, ProjectError>(ProjectError::NoSuchWorktree),
            }),
    {
        self.worktree_of_named_entry(entry_id, cx)
    }

    /// The worktree of an entry that a guest wants to have deleted. The observers hear of the
    /// request whether or not there is that entry.
    pub fn handle_delete_project_entry(
        &self,
        entry_id: u64,
        cx: &AppContext,
        out: &mut Vec<Effect>,
    ) -> (r: Result<EntityId, ProjectError>)
        ensures
            r == (match self.worktree_of_entry(*cx, ProjectEntryId(entry_id as usize)) {
                Some(w) => Ok::<EntityId, ProjectError>(w.entity_id),
                None => Err::<EntityId, ProjectError>(ProjectError::NoSuchWorktree),
            }),
            final(out)@ == old(out)@.push(
                Effect::Emit(Event::DeletedEntry(ProjectEntryId(entry_id as usize))),
            ),
    {
        out.push(Effect::Emit(Event::DeletedEntry(ProjectEntryId::from_proto(entry_id))));
        self.worktree_of_named_entry(entry_id, cx)
    }

    /// The worktree that the host tells news of, if it is known.
    pub fn handle_update_worktree(&self, worktree_id: u64, cx: &AppContext) -> (r: Option<EntityId>)
        ensures
            r == (match self.worktree_of_id(*cx, WorktreeId(worktree_id as usize)) {
                Some(w) => Some(w.entity_id),
                None => None,
            }),
    {
        match self.worktree_for_id(WorktreeId::from_proto(worktree_id), cx) {
            Some(w) => Some(w.entity_id),
            None => None,
        }
    }

    /// Handles the settings that the host has in a worktree.
    pub fn handle_update_worktree_settings(
        &self,
        worktree_id: u64,
        path: Path,
        content: Option<Arc<String>>,
        cx: &AppContext,
        out: &mut Vec<Effect>,
    )
        ensures
            final(out)@ == (match self.worktree_of_id(*cx, WorktreeId(worktree_id as usize)) {
                Some(w) => old(out)@.push(
                    Effect::SetLocalSettings { worktree: w.entity_id, path, content },
                ),
                None => old(out)@,
            }),
    {
        if let Some(w) = self.worktree_for_id(WorktreeId::from_proto(worktree_id), cx) {
            out.push(Effect::SetLocalSettings { worktree: w.entity_id, path, content });
        }
    }

    /// Handles the counts of the problems that the host has at a path.
    pub fn handle_update_diagnostic_summary(
        &self,
        worktree_id: u64,
        summary: Option<PathSummary>,
        cx: &AppContext,
        out: &mut Vec<Effect>,
    )
        ensures
            final(out)@ == (match (
                self.worktree_of_id(*cx, WorktreeId(worktree_id as usize)),
                summary,
            ) {
                (Some(w), Some(s)) => old(out)@ + seq![
                    Effect::SetDiagnosticSummary {
                        worktree: w.entity_id,
                        path: s.path,
                        language_server_id: LanguageServerId(s.language_server_id as usize),
                        error_count: s.error_count,
                        warning_count: s.warning_count,
                    },
                    Effect::Emit(
                        Event::DiagnosticsUpdated {
                            path: ProjectPath {
                                worktree_id: WorktreeId(worktree_id as usize),
                                path: s.path,
                            },
                            language_server_id: LanguageServerId(s.language_server_id as usize),
                        },
                    ),
                ],
                _ => old(out)@,
            }),
    {
        let id = WorktreeId::from_proto(worktree_id);
        if let Some(w) = self.worktree_for_id(id, cx) {
            if let Some(s) = summary {
                let language_server_id = LanguageServerId(
                    #[verifier::truncate]
                    (s.language_server_id as usize),
                );
                out.push(
                    Effect::SetDiagnosticSummary {
                        worktree: w.entity_id,
                        path: s.path.clone(),
                        language_server_id,
                        error_count: s.error_count,
                        warning_count: s.warning_count,
                    },
                );
                let path = ProjectPath { worktree_id: id, path: s.path };
                out.push(Effect::Emit(Event::DiagnosticsUpdated { path, language_server_id }));
            }
        }
    }
}

/// An entry is changed by its worktree on this disk, and for a guest by the host, which gets the
/// request as it is. Without a worktree nothing is done.
pub proof fn entries_are_changed_where_they_lie(
    project: Project,
    worktree: Option<Worktree>,
    request: EntryRequest,
)
    ensures
        worktree is None ==> entry_action(project, worktree, request) is None,
        worktree is Some && project.is_guest() ==> entry_action(project, worktree, request) == Some(
            EntryAction::Remote { worktree: worktree->0.entity_id, request },
        ),
        worktree is Some && !project.is_guest() ==> entry_action(project, worktree, request)
            == Some(EntryAction::Local { worktree: worktree->0.entity_id }),
{
}

} // verus!
