//! The worktrees of a project and the paths below them.

use crate::effects::{Effect, Event, LocalProjectUpdate, WorktreeMetadata};
use crate::ids::{EntityId, LanguageServerId, ProjectEntryId, WorktreeId};
use crate::model::{AppContext, DiagnosticSummary, Entry, ProjectPath, Worktree};
use crate::order::same;
use crate::path::{joined, Part, Path};
use crate::project::{Project, ProjectClientState, WorktreeHandle};
use crate::seqs::{
    find_map, lemma_filter_map_matches, lemma_filter_map_step, lemma_find_map_exact,
    lemma_find_map_found, lemma_find_map_none, lemma_find_map_witness, lemma_take_all,
};
use vstd::prelude::*;

verus! {

/// The worktree with an id, where a handle refers to it.
pub open spec fn with_id(cx: AppContext, id: WorktreeId) -> spec_fn(WorktreeHandle) -> Option<
    Worktree,
> {
    |h: WorktreeHandle|
        match h.live(cx) {
            Some(w) => if w.id == id {
                Some(w)
            } else {
                None
            },
            None => None,
        }
}

pub open spec fn entry_is(id: ProjectEntryId) -> spec_fn(Entry) -> Option<Entry> {
    |e: Entry|
        if e.id == id {
            Some(e)
        } else {
            None
        }
}

pub open spec fn entry_at(path: Seq<Part>) -> spec_fn(Entry) -> Option<Entry> {
    |e: Entry|
        if e.path@ == path {
            Some(e)
        } else {
            None
        }
}

impl Worktree {
    pub open spec fn entry_of_id(self, id: ProjectEntryId) -> Option<Entry> {
        find_map(self.entries@, entry_is(id))
    }

    pub open spec fn entry_of_path(self, path: Seq<Part>) -> Option<Entry> {
        find_map(self.entries@, entry_at(path))
    }

    pub fn entry_for_id(&self, id: ProjectEntryId) -> (r: Option<&Entry>)
        ensures
            match r {
                Some(e) => self.entry_of_id(id) == Some(*e),
                None => self.entry_of_id(id) is None,
            },
    {
        for i in 0..self.entries.len()
            invariant
                forall|j: int| 0 <= j < i ==> entry_is(id)(#[trigger] self.entries@[j]) is None,
        {
            if self.entries[i].id == id {
                proof {
                    lemma_find_map_found(self.entries@, entry_is(id), i as int);
                }
                return Some(&self.entries[i]);
            }
        }
        proof {
            lemma_find_map_none(self.entries@, entry_is(id));
        }
        None
    }

    pub fn entry_for_path(&self, path: &Path) -> (r: Option<&Entry>)
        ensures
            match r {
                Some(e) => self.entry_of_path(path@) == Some(*e),
                None => self.entry_of_path(path@) is None,
            },
    {
        for i in 0..self.entries.len()
            invariant
                forall|j: int| 0 <= j < i ==> entry_at(path@)(#[trigger] self.entries@[j]) is None,
        {
            if same(&self.entries[i].path, path) {
                proof {
                    lemma_find_map_found(self.entries@, entry_at(path@), i as int);
                }
                return Some(&self.entries[i]);
            }
        }
        proof {
            lemma_find_map_none(self.entries@, entry_at(path@));
        }
        None
    }
}

impl Worktree {
    /// The worktree as the place whose settings hold, once its root is known.
    pub open spec fn root(self) -> Option<EntityId> {
        if self.entry_of_path(Seq::empty()) is Some {
            Some(self.entity_id)
        } else {
            None
        }
    }

    pub fn root_file(&self) -> (r: Option<EntityId>)
        ensures
            r == self.root(),
    {
        match self.entry_for_path(&Path::empty()) {
            Some(_) => Some(self.entity_id),
            None => None,
        }
    }
}

pub open spec fn with_entry(cx: AppContext, id: ProjectEntryId) -> spec_fn(
    WorktreeHandle,
) -> Option<Worktree> {
    |h: WorktreeHandle|
        match h.live(cx) {
            Some(w) => if w.entry_of_id(id) is Some {
                Some(w)
            } else {
                None
            },
            None => None,
        }
}

pub open spec fn live_id(cx: AppContext) -> spec_fn(WorktreeHandle) -> Option<EntityId> {
    |h: WorktreeHandle|
        match h.live(cx) {
            Some(w) => Some(h.id()),
            None => None,
        }
}

pub open spec fn visible(cx: AppContext) -> spec_fn(WorktreeHandle) -> Option<Worktree> {
    |h: WorktreeHandle|
        match h.live(cx) {
            Some(w) => if w.is_visible {
                Some(w)
            } else {
                None
            },
            None => None,
        }
}

pub open spec fn visible_id(cx: AppContext) -> spec_fn(WorktreeHandle) -> Option<EntityId> {
    |h: WorktreeHandle|
        match visible(cx)(h) {
            Some(w) => Some(h.id()),
            None => None,
        }
}

pub open spec fn visible_root_name(cx: AppContext) -> spec_fn(WorktreeHandle) -> Option<String> {
    |h: WorktreeHandle|
        match visible(cx)(h) {
            Some(w) => Some(w.root_name),
            None => None,
        }
}

/// The local worktree that a handle refers to, where an absolute path lies below it.
pub open spec fn containing(cx: AppContext, abs_path: Seq<Part>) -> spec_fn(
    WorktreeHandle,
) -> Option<Worktree> {
    |h: WorktreeHandle|
        match h.live(cx) {
            Some(w) => if w.is_local && w.abs_path@.is_prefix_of(abs_path) {
                Some(w)
            } else {
                None
            },
            None => None,
        }
}

/// What a host tells of a worktree.
pub open spec fn metadata(w: Worktree) -> WorktreeMetadata {
    WorktreeMetadata {
        id: w.id.0 as u64,
        root_name: w.root_name,
        visible: w.is_visible,
        abs_path: w.abs_path,
    }
}

pub open spec fn live_metadata(cx: AppContext) -> spec_fn(WorktreeHandle) -> Option<
    WorktreeMetadata,
> {
    |h: WorktreeHandle|
        match h.live(cx) {
            Some(w) => Some(metadata(w)),
            None => None,
        }
}

pub open spec fn placed_summary(id: WorktreeId) -> spec_fn(
    (Path, LanguageServerId, DiagnosticSummary),
) -> (ProjectPath, LanguageServerId, DiagnosticSummary) {
    |s: (Path, LanguageServerId, DiagnosticSummary)|
        (ProjectPath { worktree_id: id, path: s.0 }, s.1, s.2)
}

pub open spec fn visible_summaries(cx: AppContext) -> spec_fn(WorktreeHandle) -> Seq<
    (ProjectPath, LanguageServerId, DiagnosticSummary),
> {
    |h: WorktreeHandle|
        match visible(cx)(h) {
            Some(w) => w.diagnostic_summaries@.map_values(placed_summary(w.id)),
            None => Seq::empty(),
        }
}

pub open spec fn total_errors(
    summaries: Seq<(ProjectPath, LanguageServerId, DiagnosticSummary)>,
) -> nat
    decreases summaries.len(),
{
    if summaries.len() == 0 {
        0
    } else {
        total_errors(summaries.drop_last()) + summaries.last().2.error_count as nat
    }
}

pub open spec fn total_warnings(
    summaries: Seq<(ProjectPath, LanguageServerId, DiagnosticSummary)>,
) -> nat
    decreases summaries.len(),
{
    if summaries.len() == 0 {
        0
    } else {
        total_warnings(summaries.drop_last()) + summaries.last().2.warning_count as nat
    }
}

proof fn lemma_totals_grow(
    summaries: Seq<(ProjectPath, LanguageServerId, DiagnosticSummary)>,
    i: int,
)
    requires
        0 <= i <= summaries.len(),
    ensures
        total_errors(summaries.take(i)) <= total_errors(summaries),
        total_warnings(summaries.take(i)) <= total_warnings(summaries),
    decreases summaries.len(),
{
    if i == summaries.len() {
        assert(summaries.take(i) =~= summaries);
    } else {
        lemma_totals_grow(summaries.drop_last(), i);
        assert(summaries.drop_last().take(i) =~= summaries.take(i));
    }
}

/// What is done where the project's metadata has changed: a host announces it.
pub open spec fn metadata_changed_effects(state: Option<ProjectClientState>) -> Seq<Effect> {
    if state matches Some(ProjectClientState::Local { .. }) {
        seq![Effect::QueueUpdate(LocalProjectUpdate::WorktreesChanged), Effect::Notify]
    } else {
        seq![Effect::Notify]
    }
}

/// The handles that stay when a worktree is removed: those of other live worktrees.
pub open spec fn kept_handle(cx: AppContext, id: WorktreeId) -> spec_fn(WorktreeHandle) -> Option<
    WorktreeHandle,
> {
    |h: WorktreeHandle|
        match h.live(cx) {
            Some(w) => if w.id == id {
                None
            } else {
                Some(h)
            },
            None => None,
        }
}

/// The event for each handle that a removal takes away.
pub open spec fn removed_event(cx: AppContext, id: WorktreeId) -> spec_fn(WorktreeHandle) -> Option<
    Effect,
> {
    |h: WorktreeHandle|
        match with_id(cx, id)(h) {
            Some(w) => Some(Effect::Emit(Event::WorktreeRemoved(id))),
            None => None,
        }
}

impl Project {
    pub open spec fn worktree_of_id(self, cx: AppContext, id: WorktreeId) -> Option<Worktree> {
        find_map(self.worktrees@, with_id(cx, id))
    }

    pub open spec fn worktree_of_entry(self, cx: AppContext, id: ProjectEntryId) -> Option<
        Worktree,
    > {
        find_map(self.worktrees@, with_entry(cx, id))
    }

    /// The first local worktree that an absolute path lies in.
    pub open spec fn worktree_containing(self, cx: AppContext, abs_path: Seq<Part>) -> Option<
        Worktree,
    > {
        find_map(self.worktrees@, containing(cx, abs_path))
    }

    /// All worktrees, including ones that don't appear in the project panel.
    pub fn worktrees(&self, cx: &AppContext) -> (r: Vec<EntityId>)
        ensures
            r@ == self.worktrees@.filter_map(live_id(*cx)),
    {
        let mut r: Vec<EntityId> = Vec::new();
        proof {
            lemma_take_all(self.worktrees@);
        }
        for i in 0..self.worktrees.len()
            invariant
                r@ == self.worktrees@.take(i as int).filter_map(live_id(*cx)),
        {
            proof {
                lemma_filter_map_step(self.worktrees@, live_id(*cx), i as int);
            }
            if self.worktrees[i].upgrade(cx).is_some() {
                r.push(self.worktrees[i].handle_id());
            }
        }
        r
    }

    /// All user-visible worktrees, the ones that appear in the project panel.
    pub fn visible_worktrees(&self, cx: &AppContext) -> (r: Vec<EntityId>)
        ensures
            r@ == self.worktrees@.filter_map(visible_id(*cx)),
    {
        let mut r: Vec<EntityId> = Vec::new();
        proof {
            lemma_take_all(self.worktrees@);
        }
        for i in 0..self.worktrees.len()
            invariant
                r@ == self.worktrees@.take(i as int).filter_map(visible_id(*cx)),
        {
            proof {
                lemma_filter_map_step(self.worktrees@, visible_id(*cx), i as int);
            }
            if let Some(w) = self.worktrees[i].upgrade(cx) {
                if w.is_visible {
                    r.push(self.worktrees[i].handle_id());
                }
            }
        }
        r
    }

    /// The names of the roots of the visible worktrees.
    pub fn worktree_root_names(&self, cx: &AppContext) -> (r: Vec<String>)
        ensures
            r@ == self.worktrees@.filter_map(visible_root_name(*cx)),
    {
        let mut r: Vec<String> = Vec::new();
        proof {
            lemma_take_all(self.worktrees@);
        }
        for i in 0..self.worktrees.len()
            invariant
                r@ == self.worktrees@.take(i as int).filter_map(visible_root_name(*cx)),
        {
            proof {
                lemma_filter_map_step(self.worktrees@, visible_root_name(*cx), i as int);
            }
            if let Some(w) = self.worktrees[i].upgrade(cx) {
                if w.is_visible {
                    r.push(w.root_name.clone());
                }
            }
        }
        r
    }

    pub fn worktree_for_id<'a>(&self, id: WorktreeId, cx: &'a AppContext) -> (r: Option<
        &'a Worktree,
    >)
        ensures
            match r {
                Some(w) => self.worktree_of_id(*cx, id) == Some(*w),
                None => self.worktree_of_id(*cx, id) is None,
            },
    {
        for i in 0..self.worktrees.len()
            invariant
                forall|j: int|
                    0 <= j < i ==> with_id(*cx, id)(#[trigger] self.worktrees@[j]) is None,
        {
            if let Some(w) = self.worktrees[i].upgrade(cx) {
                if w.id == id {
                    proof {
                        lemma_find_map_found(self.worktrees@, with_id(*cx, id), i as int);
                    }
                    return Some(w);
                }
            }
        }
        proof {
            lemma_find_map_none(self.worktrees@, with_id(*cx, id));
        }
        None
    }

    pub fn worktree_for_entry<'a>(&self, entry_id: ProjectEntryId, cx: &'a AppContext) -> (r:
        Option<&'a Worktree>)
        ensures
            match r {
                Some(w) => self.worktree_of_entry(*cx, entry_id) == Some(*w),
                None => self.worktree_of_entry(*cx, entry_id) is None,
            },
    {
        for i in 0..self.worktrees.len()
            invariant
                forall|j: int|
                    0 <= j < i ==> with_entry(*cx, entry_id)(
                        #[trigger] self.worktrees@[j],
                    ) is None,
        {
            if let Some(w) = self.worktrees[i].upgrade(cx) {
                if w.entry_for_id(entry_id).is_some() {
                    proof {
                        lemma_find_map_found(self.worktrees@, with_entry(*cx, entry_id), i as int);
                    }
                    return Some(w);
                }
            }
        }
        proof {
            lemma_find_map_none(self.worktrees@, with_entry(*cx, entry_id));
        }
        None
    }

    pub fn worktree_id_for_entry(&self, entry_id: ProjectEntryId, cx: &AppContext) -> (r: Option<
        WorktreeId,
    >)
        ensures
            r == (match self.worktree_of_entry(*cx, entry_id) {
                Some(w) => Some(w.id),
                None => None,
            }),
    {
        match self.worktree_for_entry(entry_id, cx) {
            Some(w) => Some(w.id),
            None => None,
        }
    }

    /// Tells whether an absolute path lies in one of the local worktrees.
    pub fn contains_path(&self, path: &Path, cx: &AppContext) -> (r: bool)
        ensures
            r == (self.worktree_containing(*cx, path@) is Some),
    {
        self.find_local_worktree(path, cx).is_some()
    }

    pub fn contains_paths(&self, paths: &Vec<Path>, cx: &AppContext) -> (r: bool)
        ensures
            r == (forall|i: int|
                0 <= i < paths@.len() ==> self.worktree_containing(
                    *cx,
                    (#[trigger] paths@[i])@,
                ) is Some),
    {
        for i in 0..paths.len()
            invariant
                forall|j: int|
                    0 <= j < i ==> self.worktree_containing(*cx, (#[trigger] paths@[j])@) is Some,
        {
            if !self.contains_path(&paths[i], cx) {
                return false;
            }
        }
        true
    }

    /// The first local worktree that an absolute path lies in, and the path below its root.
    pub fn find_local_worktree<'a>(&self, abs_path: &Path, cx: &'a AppContext) -> (r: Option<
        (&'a Worktree, Path),
    >)
        ensures
            match r {
                Some((w, rest)) => self.worktree_containing(*cx, abs_path@) == Some(*w) && rest@
                    == abs_path@.skip(w.abs_path@.len() as int),
                None => self.worktree_containing(*cx, abs_path@) is None,
            },
    {
        for i in 0..self.worktrees.len()
            invariant
                forall|j: int|
                    0 <= j < i ==> containing(*cx, abs_path@)(
                        #[trigger] self.worktrees@[j],
                    ) is None,
        {
            if let Some(w) = self.worktrees[i].upgrade(cx) {
                if w.is_local {
                    if let Some(rest) = abs_path.strip_prefix(&w.abs_path) {
                        proof {
                            lemma_find_map_found(
                                self.worktrees@,
                                containing(*cx, abs_path@),
                                i as int,
                            );
                        }
                        return Some((w, rest));
                    }
                }
            }
        }
        proof {
            lemma_find_map_none(self.worktrees@, containing(*cx, abs_path@));
        }
        None
    }

    pub fn entry_for_path(&self, path: &ProjectPath, cx: &AppContext) -> (r: Option<Entry>)
        ensures
            r == (match self.worktree_of_id(*cx, path.worktree_id) {
                Some(w) => w.entry_of_path(path.path@),
                None => None,
            }),
    {
        match self.worktree_for_id(path.worktree_id, cx) {
            Some(w) => match w.entry_for_path(&path.path) {
                Some(e) => Some(e.clone()),
                None => None,
            },
            None => None,
        }
    }

    pub fn path_for_entry(&self, entry_id: ProjectEntryId, cx: &AppContext) -> (r: Option<
        ProjectPath,
    >)
        ensures
            r == (match self.worktree_of_entry(*cx, entry_id) {
                Some(w) => match w.entry_of_id(entry_id) {
                    Some(e) => Some(ProjectPath { worktree_id: w.id, path: e.path }),
                    None => None,
                },
                None => None,
            }),
    {
        match self.worktree_for_entry(entry_id, cx) {
            Some(w) => match w.entry_for_id(entry_id) {
                Some(e) => Some(ProjectPath { worktree_id: w.id, path: e.path.clone() }),
                None => None,
            },
            None => None,
        }
    }

    /// Where a path of the project lies in the file system.
    pub fn absolute_path(&self, project_path: &ProjectPath, cx: &AppContext) -> (r: Option<Path>)
        ensures
            match (self.worktree_of_id(*cx, project_path.worktree_id), r) {
                (Some(w), Some(path)) => path@ == joined(w.abs_path@, project_path.path@),
                (None, None) => true,
                _ => false,
            },
    {
        match self.worktree_for_id(project_path.worktree_id, cx) {
            Some(w) => Some(w.abs_path.join(&project_path.path)),
            None => None,
        }
    }

    /// What a host tells the other participants of its worktrees.
    pub fn worktree_metadata_protos(&self, cx: &AppContext) -> (r: Vec<WorktreeMetadata>)
        ensures
            r@ == self.worktrees@.filter_map(live_metadata(*cx)),
    {
        let mut r: Vec<WorktreeMetadata> = Vec::new();
        proof {
            lemma_take_all(self.worktrees@);
        }
        for i in 0..self.worktrees.len()
            invariant
                r@ == self.worktrees@.take(i as int).filter_map(live_metadata(*cx)),
        {
            proof {
                lemma_filter_map_step(self.worktrees@, live_metadata(*cx), i as int);
            }
            if let Some(w) = self.worktrees[i].upgrade(cx) {
                r.push(
                    WorktreeMetadata {
                        id: w.id.to_proto(),
                        root_name: w.root_name.clone(),
                        visible: w.is_visible,
                        abs_path: w.abs_path.clone(),
                    },
                );
            }
        }
        r
    }

    /// The summaries of the diagnostics of all paths in visible worktrees.
    pub fn diagnostic_summaries(&self, cx: &AppContext) -> (r: Vec<
        (ProjectPath, LanguageServerId, DiagnosticSummary),
    >)
        ensures
            r@ == self.worktrees@.flat_map(visible_summaries(*cx)),
    {
        let mut r: Vec<(ProjectPath, LanguageServerId, DiagnosticSummary)> = Vec::new();
        proof {
            lemma_take_all(self.worktrees@);
            reveal(Seq::flatten);
            assert(self.worktrees@.take(0).map_values(visible_summaries(*cx)) =~= Seq::empty());
        }
        for i in 0..self.worktrees.len()
            invariant
                r@ == self.worktrees@.take(i as int).flat_map(visible_summaries(*cx)),
        {
            let ghost f = visible_summaries(*cx);
            let ghost before = r@;
            proof {
                self.worktrees@.lemma_flat_map_take_append(f, i as int);
            }
            if let Some(w) = self.worktrees[i].upgrade(cx) {
                if w.is_visible {
                    let ghost all = w.diagnostic_summaries@.map_values(placed_summary(w.id));
                    assert(before + all.take(0) =~= before);
                    for k in 0..w.diagnostic_summaries.len()
                        invariant
                            all == w.diagnostic_summaries@.map_values(placed_summary(w.id)),
                            r@ == before + all.take(k as int),
                    {
                        let s = &w.diagnostic_summaries[k];
                        r.push((ProjectPath { worktree_id: w.id, path: s.0.clone() }, s.1, s.2));
                        assert(r@ =~= before + all.take(k + 1));
                    }
                    assert(all.take(all.len() as int) =~= all);
                } else {
                    assert(before + f(self.worktrees@[i as int]) =~= before);
                }
            } else {
                assert(before + f(self.worktrees@[i as int]) =~= before);
            }
        }
        r
    }

    /// The summary of the diagnostics of all visible worktrees.
    pub fn diagnostic_summary(&self, cx: &AppContext) -> (r: DiagnosticSummary)
        requires
            total_errors(self.worktrees@.flat_map(visible_summaries(*cx))) <= usize::MAX,
            total_warnings(self.worktrees@.flat_map(visible_summaries(*cx))) <= usize::MAX,
        ensures
            r.error_count == total_errors(self.worktrees@.flat_map(visible_summaries(*cx))),
            r.warning_count == total_warnings(self.worktrees@.flat_map(visible_summaries(*cx))),
    {
        let all = self.diagnostic_summaries(cx);
        let mut summary = DiagnosticSummary { error_count: 0, warning_count: 0 };
        proof {
            lemma_take_all(all@);
        }
        for i in 0..all.len()
            invariant
                summary.error_count == total_errors(all@.take(i as int)),
                summary.warning_count == total_warnings(all@.take(i as int)),
                total_errors(all@) <= usize::MAX,
                total_warnings(all@) <= usize::MAX,
        {
            proof {
                lemma_totals_grow(all@, i + 1);
                assert(all@.take(i + 1).drop_last() =~= all@.take(i as int));
            }
            summary.error_count = summary.error_count + all[i].2.error_count;
            summary.warning_count = summary.warning_count + all[i].2.warning_count;
        }
        summary
    }

    /// Announces that the worktrees or the way they are shared have changed.
    pub fn metadata_changed(&self, out: &mut Vec<Effect>)
        ensures
            final(out)@ == old(out)@ + metadata_changed_effects(self.client_state),
    {
        if self.is_shared() {
            out.push(Effect::QueueUpdate(LocalProjectUpdate::WorktreesChanged));
        }
        out.push(Effect::Notify);
        assert(out@ =~= old(out)@ + metadata_changed_effects(self.client_state));
    }

    /// Makes the entry at a path the active one.
    pub fn set_active_path(
        &mut self,
        entry: Option<ProjectPath>,
        cx: &AppContext,
        out: &mut Vec<Effect>,
    )
        ensures
            ({
                let active = match entry {
                    Some(p) => match old(self).worktree_of_id(*cx, p.worktree_id) {
                        Some(w) => match w.entry_of_path(p.path@) {
                            Some(e) => Some(e.id),
                            None => None,
                        },
                        None => None,
                    },
                    None => None,
                };
                &&& *final(self) == (Project { active_entry: active, ..*old(self) })
                &&& final(out)@ == (if active == old(self).active_entry {
                    old(out)@
                } else {
                    old(out)@.push(Effect::Emit(Event::ActiveEntryChanged(active)))
                })
            }),
    {
        let active: Option<ProjectEntryId> = match &entry {
            Some(p) => match self.entry_for_path(p, cx) {
                Some(e) => Some(e.id),
                None => None,
            },
            None => None,
        };
        if active != self.active_entry {
            self.active_entry = active;
            out.push(Effect::Emit(Event::ActiveEntryChanged(active)));
        }
    }

    pub fn active_entry(&self) -> (r: Option<ProjectEntryId>)
        ensures
            r == self.active_entry,
    {
        self.active_entry
    }

    /// Takes a worktree out of the project, along with the handles of those that are gone.
    pub fn remove_worktree(
        &mut self,
        id_to_remove: WorktreeId,
        cx: &AppContext,
        out: &mut Vec<Effect>,
    )
        ensures
            final(self).worktrees@ == old(self).worktrees@.filter_map(
                kept_handle(*cx, id_to_remove),
            ),
            *final(self) == (Project { worktrees: final(self).worktrees, ..*old(self) }),
            final(out)@ == old(out)@ + old(self).worktrees@.filter_map(
                removed_event(*cx, id_to_remove),
            ) + metadata_changed_effects(old(self).client_state),
    {
        let mut kept: Vec<WorktreeHandle> = Vec::new();
        proof {
            lemma_take_all(self.worktrees@);
            assert(out@ + Seq::<Effect>::empty() =~= out@);
        }
        for i in 0..self.worktrees.len()
            invariant
                *self == *old(self),
                kept@ == self.worktrees@.take(i as int).filter_map(kept_handle(*cx, id_to_remove)),
                out@ == old(out)@ + self.worktrees@.take(i as int).filter_map(
                    removed_event(*cx, id_to_remove),
                ),
        {
            let ghost before = out@;
            let ghost events = self.worktrees@.take(i as int).filter_map(
                removed_event(*cx, id_to_remove),
            );
            proof {
                lemma_filter_map_step(self.worktrees@, kept_handle(*cx, id_to_remove), i as int);
                lemma_filter_map_step(self.worktrees@, removed_event(*cx, id_to_remove), i as int);
            }
            if let Some(w) = self.worktrees[i].upgrade(cx) {
                if w.id == id_to_remove {
                    out.push(Effect::Emit(Event::WorktreeRemoved(w.id)));
                    assert(out@ =~= old(out)@ + events.push(
                        Effect::Emit(Event::WorktreeRemoved(id_to_remove)),
                    ));
                } else {
                    kept.push(self.worktrees[i]);
                }
            }
        }
        self.worktrees = kept;
        self.metadata_changed(out);
    }

    /// Adds a worktree. The project holds on to it if others or the user can see it.
    pub fn add_worktree(&mut self, worktree: &Worktree, out: &mut Vec<Effect>)
        ensures
            final(self).worktrees@ == old(self).worktrees@.push(
                if (old(self).client_state matches Some(ProjectClientState::Local { .. }))
                    || worktree.is_visible || !worktree.is_local {
                    WorktreeHandle::Strong(worktree.entity_id)
                } else {
                    WorktreeHandle::Weak(worktree.entity_id)
                },
            ),
            *final(self) == (Project { worktrees: final(self).worktrees, ..*old(self) }),
            final(out)@ == old(out)@.push(Effect::Emit(Event::WorktreeAdded))
                + metadata_changed_effects(old(self).client_state),
    {
        if self.is_shared() || worktree.is_visible || !worktree.is_local {
            self.worktrees.push(WorktreeHandle::Strong(worktree.entity_id));
        } else {
            self.worktrees.push(WorktreeHandle::Weak(worktree.entity_id));
        }
        out.push(Effect::Emit(Event::WorktreeAdded));
        self.metadata_changed(out);
    }

    /// A worktree is gone: it leaves the project, and its settings are dropped.
    pub fn worktree_released(
        &mut self,
        id: WorktreeId,
        worktree: EntityId,
        cx: &AppContext,
        out: &mut Vec<Effect>,
    )
        ensures
            final(self).worktrees@ == old(self).worktrees@.filter_map(kept_handle(*cx, id)),
            *final(self) == (Project { worktrees: final(self).worktrees, ..*old(self) }),
            final(out)@ == (old(out)@ + old(self).worktrees@.filter_map(removed_event(*cx, id))
                + metadata_changed_effects(old(self).client_state)).push(
                Effect::ClearLocalSettings(worktree),
            ),
    {
        self.remove_worktree(id, cx, out);
        out.push(Effect::ClearLocalSettings(worktree));
    }
}

/// After a worktree has been removed, no handle leads to it.
pub proof fn removed_worktree_is_gone(worktrees: Seq<WorktreeHandle>, cx: AppContext, id: WorktreeId)
    ensures
        find_map(worktrees.filter_map(kept_handle(cx, id)), with_id(cx, id)) is None,
{
    let kept = worktrees.filter_map(kept_handle(cx, id));
    assert forall|j: int| 0 <= j < kept.len() implies with_id(cx, id)(#[trigger] kept[j]) is None by {
        assert(kept.contains(kept[j]));
        worktrees.lemma_filter_map_contains(kept_handle(cx, id), kept[j]);
    }
    lemma_find_map_none(kept, with_id(cx, id));
}

/// A path found in a worktree leads back to the absolute path that was looked up.
pub proof fn found_path_leads_back(project: Project, cx: AppContext, abs_path: Seq<Part>)
    requires
        project.worktree_containing(cx, abs_path) is Some,
        crate::path::descending(
            abs_path.skip(project.worktree_containing(cx, abs_path)->0.abs_path@.len() as int),
        ),
    ensures
        ({
            let w = project.worktree_containing(cx, abs_path)->0;
            joined(w.abs_path@, abs_path.skip(w.abs_path@.len() as int)) == abs_path
        }),
{
    let i = crate::seqs::lemma_find_map_witness(project.worktrees@, containing(cx, abs_path));
    let w = project.worktree_containing(cx, abs_path)->0;
    crate::path::join_undoes_strip_prefix(w.abs_path@, abs_path);
}

/// An entry is found by its id exactly if the worktree has one with that id.
pub proof fn entries_are_found_by_their_id(w: Worktree, id: ProjectEntryId)
    ensures
        w.entry_of_id(id) is Some ==> w.entry_of_id(id)->0.id == id && w.entries@.contains(
            w.entry_of_id(id)->0,
        ),
        w.entry_of_id(id) is None ==> forall|i: int|
            0 <= i < w.entries@.len() ==> (#[trigger] w.entries@[i]).id != id,
{
    lemma_find_map_exact(w.entries@, entry_is(id));
}

/// An entry is found by its path exactly if the worktree has one at that path.
pub proof fn entries_are_found_by_their_path(w: Worktree, path: Seq<Part>)
    ensures
        w.entry_of_path(path) is Some ==> w.entry_of_path(path)->0.path@ == path
            && w.entries@.contains(w.entry_of_path(path)->0),
        w.entry_of_path(path) is None ==> forall|i: int|
            0 <= i < w.entries@.len() ==> (#[trigger] w.entries@[i]).path@ != path,
{
    lemma_find_map_exact(w.entries@, entry_at(path));
}

/// The settings of a worktree hold for itself, and only once it has a root.
pub proof fn settings_hold_below_a_root(w: Worktree)
    ensures
        w.root() is Some <==> w.entry_of_path(Seq::empty()) is Some,
        w.root() is Some ==> w.root()->0 == w.entity_id,
{
}

/// A worktree is found by its id exactly if a handle of the project leads to a live one with that id.
pub proof fn worktrees_are_found_by_their_id(project: Project, cx: AppContext, id: WorktreeId)
    ensures
        ({
            let found = project.worktree_of_id(cx, id);
            &&& found is Some ==> found->0.id == id && exists|i: int|
                0 <= i < project.worktrees@.len() && (#[trigger] project.worktrees@[i]).live(cx)
                    == found
            &&& found is None ==> forall|i: int|
                0 <= i < project.worktrees@.len() && (#[trigger] project.worktrees@[i]).live(
                    cx,
                ) is Some ==> project.worktrees@[i].live(cx)->0.id != id
        }),
{
    lemma_find_map_exact(project.worktrees@, with_id(cx, id));
    if project.worktree_of_id(cx, id) is Some {
        let i = lemma_find_map_witness(project.worktrees@, with_id(cx, id));
        assert(project.worktrees@[i].live(cx) == project.worktree_of_id(cx, id));
    }
}

/// The worktree of an entry is a live one that has the entry, and there is one whenever some live
/// worktree does.
pub proof fn worktrees_are_found_by_their_entries(
    project: Project,
    cx: AppContext,
    id: ProjectEntryId,
)
    ensures
        ({
            let found = project.worktree_of_entry(cx, id);
            &&& found is Some ==> found->0.entry_of_id(id) is Some && exists|i: int|
                0 <= i < project.worktrees@.len() && (#[trigger] project.worktrees@[i]).live(cx)
                    == found
            &&& found is None ==> forall|i: int|
                0 <= i < project.worktrees@.len() && (#[trigger] project.worktrees@[i]).live(
                    cx,
                ) is Some ==> project.worktrees@[i].live(cx)->0.entry_of_id(id) is None
        }),
{
    lemma_find_map_exact(project.worktrees@, with_entry(cx, id));
    if project.worktree_of_entry(cx, id) is Some {
        let i = lemma_find_map_witness(project.worktrees@, with_entry(cx, id));
        assert(project.worktrees@[i].live(cx) == project.worktree_of_entry(cx, id));
    }
}

/// The worktree that contains an absolute path is a live one on this disk whose root the path lies
/// below, and there is one whenever some such worktree does.
pub proof fn worktrees_contain_what_lies_below_them(
    project: Project,
    cx: AppContext,
    abs_path: Seq<Part>,
)
    ensures
        ({
            let found = project.worktree_containing(cx, abs_path);
            &&& found is Some ==> found->0.is_local && found->0.abs_path@.is_prefix_of(abs_path)
                && exists|i: int|
                0 <= i < project.worktrees@.len() && (#[trigger] project.worktrees@[i]).live(cx)
                    == found
            &&& found is None ==> forall|i: int|
                0 <= i < project.worktrees@.len() && (#[trigger] project.worktrees@[i]).live(
                    cx,
                ) is Some ==> !(project.worktrees@[i].live(cx)->0.is_local
                    && project.worktrees@[i].live(cx)->0.abs_path@.is_prefix_of(abs_path))
        }),
{
    lemma_find_map_exact(project.worktrees@, containing(cx, abs_path));
    if project.worktree_containing(cx, abs_path) is Some {
        let i = lemma_find_map_witness(project.worktrees@, containing(cx, abs_path));
        assert(project.worktrees@[i].live(cx) == project.worktree_containing(cx, abs_path));
    }
}

/// All live worktrees are listed; among the visible ones are exactly those that can be seen. Both
/// lists keep the order of the project, and so do the names of the roots.
pub proof fn live_worktrees_are_listed(hs: Seq<WorktreeHandle>, cx: AppContext)
    ensures
        ({
            let live = hs.filter(|h: WorktreeHandle| h.live(cx) is Some);
            let seen = hs.filter(
                |h: WorktreeHandle| h.live(cx) is Some && h.live(cx)->0.is_visible,
            );
            &&& hs.filter_map(live_id(cx)).len() == live.len()
            &&& forall|k: int|
                0 <= k < live.len() ==> #[trigger] hs.filter_map(live_id(cx))[k] == live[k].id()
            &&& hs.filter_map(visible_id(cx)).len() == seen.len()
            &&& forall|k: int|
                0 <= k < seen.len() ==> #[trigger] hs.filter_map(visible_id(cx))[k] == seen[k].id()
            &&& hs.filter_map(visible_root_name(cx)).len() == seen.len()
            &&& forall|k: int|
                0 <= k < seen.len() ==> #[trigger] hs.filter_map(visible_root_name(cx))[k]
                    == seen[k].live(cx)->0.root_name
        }),
{
    let p = |h: WorktreeHandle| h.live(cx) is Some;
    let q = |h: WorktreeHandle| h.live(cx) is Some && h.live(cx)->0.is_visible;
    lemma_filter_map_matches(hs, live_id(cx), p);
    lemma_filter_map_matches(hs, visible_id(cx), q);
    lemma_filter_map_matches(hs, visible_root_name(cx), q);
}

/// A host tells of every live worktree: its id, the name of its root, whether it can be seen, and
/// where it lies.
pub proof fn every_live_worktree_is_told_of(
    hs: Seq<WorktreeHandle>,
    cx: AppContext,
    told: Seq<WorktreeMetadata>,
)
    requires
        told == hs.filter_map(live_metadata(cx)),
    ensures
        ({
            let live = hs.filter(|h: WorktreeHandle| h.live(cx) is Some);
            &&& told.len() == live.len()
            &&& forall|k: int|
                0 <= k < told.len() ==> {
                    let w = live[k].live(cx)->0;
                    &&& (#[trigger] told[k]).id == w.id.0 as u64
                    &&& told[k].root_name == w.root_name
                    &&& told[k].visible == w.is_visible
                    &&& told[k].abs_path == w.abs_path
                }
        }),
{
    lemma_filter_map_matches(hs, live_metadata(cx), |h: WorktreeHandle| h.live(cx) is Some);
}

/// The summaries of a visible worktree are all given, each with its path in that worktree; those of a
/// hidden or vanished one are not.
pub proof fn visible_worktrees_are_summarised(h: WorktreeHandle, cx: AppContext)
    ensures
        h.live(cx) is None || !h.live(cx)->0.is_visible ==> visible_summaries(cx)(h).len() == 0,
        h.live(cx) is Some && h.live(cx)->0.is_visible ==> {
            let w = h.live(cx)->0;
            let given = visible_summaries(cx)(h);
            &&& given.len() == w.diagnostic_summaries@.len()
            &&& forall|i: int|
                0 <= i < given.len() ==> {
                    &&& (#[trigger] given[i]).0.worktree_id == w.id
                    &&& given[i].0.path == w.diagnostic_summaries@[i].0
                    &&& given[i].1 == w.diagnostic_summaries@[i].1
                    &&& given[i].2 == w.diagnostic_summaries@[i].2
                }
        },
{
}

/// The counts of several summaries are added up, however they are split.
pub proof fn counts_are_added_up(
    a: Seq<(ProjectPath, LanguageServerId, DiagnosticSummary)>,
    b: Seq<(ProjectPath, LanguageServerId, DiagnosticSummary)>,
)
    ensures
        total_errors(a + b) == total_errors(a) + total_errors(b),
        total_warnings(a + b) == total_warnings(a) + total_warnings(b),
        a.len() == 1 ==> total_errors(a) == a[0].2.error_count && total_warnings(a)
            == a[0].2.warning_count,
        a.len() == 0 ==> total_errors(a) == 0 && total_warnings(a) == 0,
    decreases b.len(),
{
    if b.len() > 0 {
        counts_are_added_up(a, b.drop_last());
        assert((a + b).drop_last() =~= a + b.drop_last());
    } else {
        assert(a + b =~= a);
    }
    if a.len() == 1 {
        reveal_with_fuel(total_errors, 2);
        reveal_with_fuel(total_warnings, 2);
    }
}

/// A host announces changes of its worktrees to the others; everybody redraws.
pub proof fn hosts_announce_their_worktrees(state: Option<ProjectClientState>)
    ensures
        ({
            let effects = metadata_changed_effects(state);
            &&& effects.contains(Effect::Notify)
            &&& effects.contains(Effect::QueueUpdate(LocalProjectUpdate::WorktreesChanged)) <==> (
            state matches Some(ProjectClientState::Local { .. }))
        }),
{
    let effects = metadata_changed_effects(state);
    assert(effects[effects.len() - 1] == Effect::Notify);
    if state matches Some(ProjectClientState::Local { .. }) {
        assert(effects[0] == Effect::QueueUpdate(LocalProjectUpdate::WorktreesChanged));
    }
}

/// When a worktree is removed, exactly the other live ones stay, in their order, and observers are
/// told once for each handle that led to it.
pub proof fn other_worktrees_stay(hs: Seq<WorktreeHandle>, cx: AppContext, id: WorktreeId)
    ensures
        hs.filter_map(kept_handle(cx, id)) == hs.filter(
            |h: WorktreeHandle| h.live(cx) is Some && h.live(cx)->0.id != id,
        ),
        hs.filter_map(removed_event(cx, id)).len() == hs.filter(
            |h: WorktreeHandle| h.live(cx) is Some && h.live(cx)->0.id == id,
        ).len(),
        forall|k: int|
            0 <= k < hs.filter_map(removed_event(cx, id)).len() ==> #[trigger] hs.filter_map(
                removed_event(cx, id),
            )[k] == Effect::Emit(Event::WorktreeRemoved(id)),
{
    let p = |h: WorktreeHandle| h.live(cx) is Some && h.live(cx)->0.id != id;
    let q = |h: WorktreeHandle| h.live(cx) is Some && h.live(cx)->0.id == id;
    lemma_filter_map_matches(hs, kept_handle(cx, id), p);
    lemma_filter_map_matches(hs, removed_event(cx, id), q);
    assert(hs.filter_map(kept_handle(cx, id)) =~= hs.filter(p)) by {
        assert forall|k: int| 0 <= k < hs.filter(p).len() implies #[trigger] hs.filter(p)[k]
            == hs.filter_map(kept_handle(cx, id))[k] by {
            assert(kept_handle(cx, id)(hs.filter(p)[k]) == Some(
                hs.filter_map(kept_handle(cx, id))[k],
            ));
        }
    }
}

} // verus!
