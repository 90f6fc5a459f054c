//! Searching the project's files.

use crate::edits::{Anchor, Bias};
use crate::effects::{Effect, LocalProjectUpdate};
use crate::ids::{EntityId, PeerId, WorktreeId};
use crate::map::{SortedMap, SortedSet};
use crate::model::{AppContext, Buffer, Entry, ProjectPath, ProjectPathView};
use crate::order::Key;
use crate::path::{joined, Part, Path};
use crate::project::{OpenBuffer, Project, ProjectClientState, ProjectError, WorktreeHandle};
use crate::seqs::{lemma_filter_map_from, lemma_filter_map_step, lemma_take_all};
use crate::sort::{lemma_same_items_mapped, sort_by_key, sorting_orders_and_keeps, stable_sort};
use crate::worktrees::visible;
use vstd::arithmetic::div_mod::lemma_fundamental_div_mod;
use vstd::prelude::*;
use vstd::seq_lib::to_multiset_contains;

verus! {

/// A place where a search may find something.
#[allow(inconsistent_fields)]
#[derive(Debug)]
pub enum SearchMatchCandidate {
    /// A buffer; one that has never been saved has no path.
    OpenBuffer { buffer: EntityId, path: Option<Path> },
    /// A file that is not open.
    Path { worktree_id: WorktreeId, path: Path },
}

impl Clone for SearchMatchCandidate {
    fn clone(&self) -> (r: Self)
        ensures
            r == *self,
    {
        match self {
            SearchMatchCandidate::OpenBuffer { buffer, path } => SearchMatchCandidate::OpenBuffer {
                buffer: *buffer,
                path: match path {
                    Some(path) => Some(path.clone()),
                    None => None,
                },
            },
            SearchMatchCandidate::Path { worktree_id, path } => SearchMatchCandidate::Path {
                worktree_id: *worktree_id,
                path: path.clone(),
            },
        }
    }
}

impl SearchMatchCandidate {
    pub open spec fn path_of(self) -> Option<Path> {
        match self {
            SearchMatchCandidate::OpenBuffer { path, .. } => path,
            SearchMatchCandidate::Path { path, .. } => Some(path),
        }
    }

    /// The path by which candidates are ordered.
    pub fn path(&self) -> (r: Option<Path>)
        ensures
            r == self.path_of(),
    {
        match self {
            SearchMatchCandidate::OpenBuffer { path, .. } => match path {
                Some(path) => Some(path.clone()),
                None => None,
            },
            SearchMatchCandidate::Path { path, .. } => Some(path.clone()),
        }
    }
}

/// The files of a worktree that a search looks through.
#[derive(Debug)]
pub struct SearchSnapshot {
    pub id: WorktreeId,
    pub abs_path: Path,
    pub files: Vec<Path>,
}

/// What a snapshot stands for.
pub struct SnapshotView {
    pub id: WorktreeId,
    pub abs_path: Path,
    pub files: Seq<Path>,
}

impl View for SearchSnapshot {
    type V = SnapshotView;

    open spec fn view(&self) -> SnapshotView {
        SnapshotView { id: self.id, abs_path: self.abs_path, files: self.files@ }
    }
}

pub open spec fn snapshot_views(snapshots: Seq<SearchSnapshot>) -> Seq<SnapshotView> {
    snapshots.map_values(|s: SearchSnapshot| s@)
}

/// A file that a search looks into.
#[derive(Debug)]
pub struct SearchFile {
    pub worktree_id: WorktreeId,
    pub path: Path,
    pub abs_path: Path,
}

/// What such a file stands for.
pub struct SearchFileView {
    pub worktree_id: WorktreeId,
    pub path: Seq<Part>,
    pub abs_path: Seq<Part>,
}

impl View for SearchFile {
    type V = SearchFileView;

    open spec fn view(&self) -> SearchFileView {
        SearchFileView {
            worktree_id: self.worktree_id,
            path: self.path@,
            abs_path: self.abs_path@,
        }
    }
}

pub open spec fn file_views(files: Seq<SearchFile>) -> Seq<SearchFileView> {
    files.map_values(|f: SearchFile| f@)
}

/// The path of an entry that is a file and that git does not ignore.
pub open spec fn visible_file() -> spec_fn(Entry) -> Option<Path> {
    |e: Entry|
        if e.is_file && !e.is_ignored {
            Some(e.path)
        } else {
            None
        }
}

/// What a search looks through in the worktree that a handle refers to.
pub open spec fn searched(cx: AppContext) -> spec_fn(WorktreeHandle) -> Option<SnapshotView> {
    |h: WorktreeHandle|
        match visible(cx)(h) {
            Some(w) => if w.is_local {
                Some(
                    SnapshotView {
                        id: w.id,
                        abs_path: w.abs_path,
                        files: w.entries@.filter_map(visible_file()),
                    },
                )
            } else {
                None
            },
            None => None,
        }
}

pub open spec fn files_of(s: SnapshotView) -> Seq<SearchFileView> {
    s.files.map_values(
        |p: Path|
            SearchFileView { worktree_id: s.id, path: p@, abs_path: joined(s.abs_path@, p@) },
    )
}

/// The files of all snapshots, one after the other.
pub open spec fn all_files(snapshots: Seq<SnapshotView>) -> Seq<SearchFileView>
    decreases snapshots.len(),
{
    if snapshots.len() == 0 {
        Seq::empty()
    } else {
        all_files(snapshots.drop_last()) + files_of(snapshots.last())
    }
}

/// The buffers without a file.
pub open spec fn unnamed(cx: AppContext) -> spec_fn((u64, OpenBuffer)) -> Option<EntityId> {
    |e: (u64, OpenBuffer)|
        match e.1.live(cx) {
            Some(b) => if b.file is None {
                Some(b.entity_id)
            } else {
                None
            },
            None => None,
        }
}

/// The buffers with a file, each with the place of its file in the project.
pub open spec fn named(cx: AppContext) -> spec_fn((u64, OpenBuffer)) -> Option<
    (ProjectPath, EntityId),
> {
    |e: (u64, OpenBuffer)|
        match e.1.live(cx) {
            Some(b) => match b.file {
                Some(file) => Some(
                    (
                        ProjectPath { worktree_id: file.worktree_id, path: file.path },
                        b.entity_id,
                    ),
                ),
                None => None,
            },
            None => None,
        }
}

/// Some of the buffers lies at a place of the project.
pub open spec fn lies_at(buffers: Seq<(ProjectPath, EntityId)>, place: ProjectPathView) -> bool {
    exists|i: int| 0 <= i < buffers.len() && (#[trigger] buffers[i]).0@ == place
}

/// What a local search goes through.
#[derive(Debug)]
pub struct SearchPlan {
    pub snapshots: Vec<SearchSnapshot>,
    pub path_count: usize,
    /// How many workers share the files.
    pub workers: usize,
    pub unnamed_buffers: Vec<EntityId>,
    /// The open buffers that have a file.
    pub opened_buffers: Vec<(ProjectPath, EntityId)>,
    /// Where these files lie; they are not looked into on disk.
    pub opened_paths: SortedSet<ProjectPath>,
}

proof fn lemma_files_grow(snapshots: Seq<SnapshotView>, i: int)
    requires
        0 <= i < snapshots.len(),
    ensures
        all_files(snapshots.take(i + 1)) == all_files(snapshots.take(i)) + files_of(snapshots[i]),
        all_files(snapshots.take(i + 1)).len() <= all_files(snapshots).len(),
    decreases snapshots.len(),
{
    assert(snapshots.take(i + 1).drop_last() =~= snapshots.take(i));
    if i + 1 == snapshots.len() {
        assert(snapshots.take(i + 1) =~= snapshots);
    } else {
        lemma_files_grow(snapshots.drop_last(), i);
        assert(snapshots.drop_last().take(i + 1) =~= snapshots.take(i + 1));
    }
}

proof fn lemma_lies_at(buffers: Seq<(ProjectPath, EntityId)>, b: (ProjectPath, EntityId))
    ensures
        forall|place: ProjectPathView| #[trigger]
            lies_at(buffers.push(b), place) == (lies_at(buffers, place) || place == b.0@),
{
    let all = buffers.push(b);
    assert forall|place: ProjectPathView| #[trigger]
        lies_at(all, place) == (lies_at(buffers, place) || place == b.0@) by {
        if lies_at(buffers, place) {
            let i = choose|i: int| 0 <= i < buffers.len() && (#[trigger] buffers[i]).0@ == place;
            assert(all[i].0@ == place);
        }
        if lies_at(all, place) {
            let i = choose|i: int| 0 <= i < all.len() && (#[trigger] all[i]).0@ == place;
            if i < buffers.len() {
                assert(buffers[i].0@ == place);
            }
        }
        assert(all[buffers.len() as int] == b);
    }
}

impl Project {
    /// The files that a search looks through.
    pub open spec fn searched_files(self, cx: AppContext) -> Seq<SearchFileView> {
        all_files(self.worktrees@.filter_map(searched(cx)))
    }

    fn search_snapshots(&self, cx: &AppContext) -> (r: Vec<SearchSnapshot>)
        ensures
            snapshot_views(r@) == self.worktrees@.filter_map(searched(*cx)),
    {
        let mut r: Vec<SearchSnapshot> = Vec::new();
        let ghost f = searched(*cx);
        proof {
            lemma_take_all(self.worktrees@);
            assert(snapshot_views(r@) =~= Seq::empty());
        }
        for i in 0..self.worktrees.len()
            invariant
                f == searched(*cx),
                snapshot_views(r@) == self.worktrees@.take(i as int).filter_map(f),
        {
            proof {
                lemma_filter_map_step(self.worktrees@, f, i as int);
            }
            if let Some(w) = self.worktrees[i].upgrade(cx) {
                if w.is_visible && w.is_local {
                    let mut files: Vec<Path> = Vec::new();
                    proof {
                        lemma_take_all(w.entries@);
                    }
                    for k in 0..w.entries.len()
                        invariant
                            files@ == w.entries@.take(k as int).filter_map(visible_file()),
                    {
                        proof {
                            lemma_filter_map_step(w.entries@, visible_file(), k as int);
                        }
                        if w.entries[k].is_file && !w.entries[k].is_ignored {
                            files.push(w.entries[k].path.clone());
                        }
                    }
                    let ghost before = r@;
                    r.push(SearchSnapshot { id: w.id, abs_path: w.abs_path.clone(), files });
                    assert(snapshot_views(r@) =~= snapshot_views(before).push(r@.last()@));
                }
            }
        }
        r
    }

    /// Plans a search of the local files and of all open buffers. There is nothing to do where
    /// there is neither a file nor an open buffer.
    pub fn search_local(&self, num_cpus: usize, cx: &AppContext) -> (r: Option<SearchPlan>)
        requires
            num_cpus > 0,
            2 * self.searched_files(*cx).len() <= usize::MAX,
        ensures
            ({
                let es = self.opened_buffers.entries();
                let count = self.searched_files(*cx).len();
                let without_file = es.filter_map(unnamed(*cx));
                let with_file = es.filter_map(named(*cx));
                match r {
                    None => count == 0 && without_file.len() == 0 && with_file.len() == 0,
                    Some(plan) => {
                        &&& count > 0 || without_file.len() > 0 || with_file.len() > 0
                        &&& snapshot_views(plan.snapshots@) == self.worktrees@.filter_map(
                            searched(*cx),
                        )
                        &&& plan.path_count == count
                        &&& plan.workers == (if num_cpus <= count {
                            num_cpus as int
                        } else {
                            count as int
                        })
                        &&& plan.unnamed_buffers@ == without_file
                        &&& plan.opened_buffers@ == with_file
                        &&& plan.is_valid()
                    },
                }
            }),
    {
        let snapshots = self.search_snapshots(cx);
        let mut path_count: usize = 0;
        let ghost ss = snapshot_views(snapshots@);
        assert(ss.take(0) =~= Seq::empty());
        for i in 0..snapshots.len()
            invariant
                ss == snapshot_views(snapshots@),
                2 * all_files(ss).len() <= usize::MAX,
                path_count == all_files(ss.take(i as int)).len(),
        {
            proof {
                lemma_files_grow(ss, i as int);
            }
            path_count = path_count + snapshots[i].files.len();
        }
        assert(ss.take(snapshots@.len() as int) =~= ss);
        let workers: usize = if num_cpus <= path_count {
            num_cpus
        } else {
            path_count
        };
        let mut unnamed_buffers: Vec<EntityId> = Vec::new();
        let mut opened_buffers: Vec<(ProjectPath, EntityId)> = Vec::new();
        let mut opened_paths: SortedSet<ProjectPath> = SortedSet::new();
        let n: usize = self.opened_buffers.len();
        let ghost es = self.opened_buffers.entries();
        let ghost f = unnamed(*cx);
        let ghost g = named(*cx);
        proof {
            lemma_take_all(es);
        }
        for i in 0..n
            invariant
                n == es.len(),
                es == self.opened_buffers.entries(),
                f == unnamed(*cx),
                g == named(*cx),
                unnamed_buffers@ == es.take(i as int).filter_map(f),
                opened_buffers@ == es.take(i as int).filter_map(g),
                forall|place: ProjectPathView| #[trigger]
                    opened_paths@.contains(place) == lies_at(opened_buffers@, place),
        {
            proof {
                lemma_filter_map_step(es, f, i as int);
                lemma_filter_map_step(es, g, i as int);
            }
            if let Some(b) = self.opened_buffers.value_of(i).upgrade(cx) {
                match &b.file {
                    Some(file) => {
                        let ghost before = opened_buffers@;
                        let place = ProjectPath {
                            worktree_id: file.worktree_id,
                            path: file.path.clone(),
                        };
                        opened_paths.insert(place.clone());
                        opened_buffers.push((place, b.entity_id));
                        proof {
                            lemma_lies_at(before, opened_buffers@.last());
                        }
                    },
                    None => unnamed_buffers.push(b.entity_id),
                }
            }
        }
        if path_count == 0 && unnamed_buffers.len() == 0 && opened_buffers.len() == 0 {
            return None;
        }
        Some(
            SearchPlan {
                snapshots,
                path_count,
                workers,
                unnamed_buffers,
                opened_buffers,
                opened_paths,
            },
        )
    }
}

/// How many files a worker takes on.
pub open spec fn files_per_worker(count: int, workers: int) -> int {
    (count + workers - 1) / workers
}

pub open spec fn clip(i: int, count: int) -> int {
    if i <= count {
        i
    } else {
        count
    }
}

/// The files that a worker takes on.
pub open spec fn share(files: Seq<SearchFileView>, workers: int, worker: int) -> Seq<
    SearchFileView,
> {
    let n = files.len() as int;
    let per = files_per_worker(n, workers);
    files.subrange(clip(worker * per, n), clip((worker + 1) * per, n))
}

/// A file that is not open.
pub open spec fn not_open(opened: Seq<(ProjectPath, EntityId)>) -> spec_fn(SearchFileView) -> bool {
    |f: SearchFileView|
        !lies_at(opened, (ProjectPathView { worktree_id: f.worktree_id, path: f.path }))
}

proof fn lemma_worker_bounds(count: int, workers: int, worker: int)
    requires
        0 < workers <= count,
        0 <= worker < workers,
    ensures
        0 < files_per_worker(count, workers) <= count,
        0 <= worker * files_per_worker(count, workers),
        (worker + 1) * files_per_worker(count, workers) == worker * files_per_worker(
            count,
            workers,
        ) + files_per_worker(count, workers),
        (worker + 1) * files_per_worker(count, workers) <= count + workers - 1,
        count <= workers * files_per_worker(count, workers),
{
    let per = files_per_worker(count, workers);
    let r = (count + workers - 1) % workers;
    lemma_fundamental_div_mod(count + workers - 1, workers);
    assert(count + workers - 1 == workers * per + r);
    assert(per > 0) by (nonlinear_arith)
        requires
            count + workers - 1 == workers * per + r,
            r < workers,
            count > 0,
            workers > 0,
    ;
    assert(per <= count) by (nonlinear_arith)
        requires
            count + workers - 1 == workers * per + r,
            0 <= r,
            0 < workers <= count,
    ;
    assert(0 <= worker * per) by (nonlinear_arith)
        requires
            0 <= worker,
            per > 0,
    ;
    assert((worker + 1) * per == worker * per + per) by (nonlinear_arith);
    assert((worker + 1) * per <= workers * per) by (nonlinear_arith)
        requires
            worker + 1 <= workers,
            per > 0,
    ;
}

/// The candidate for a buffer without a file.
pub open spec fn untitled_candidate() -> spec_fn(EntityId) -> SearchMatchCandidate {
    |b: EntityId| SearchMatchCandidate::OpenBuffer { buffer: b, path: None }
}

/// The candidate for an open buffer that has a file.
pub open spec fn open_candidate() -> spec_fn((ProjectPath, EntityId)) -> SearchMatchCandidate {
    |b: (ProjectPath, EntityId)|
        SearchMatchCandidate::OpenBuffer { buffer: b.1, path: Some(b.0.path) }
}

impl SearchPlan {
    pub open spec fn files(self) -> Seq<SearchFileView> {
        all_files(snapshot_views(self.snapshots@))
    }

    pub open spec fn is_valid(self) -> bool {
        &&& self.path_count == self.files().len()
        &&& self.workers <= self.path_count
        &&& self.path_count > 0 ==> self.workers > 0
        &&& 2 * self.path_count <= usize::MAX
        &&& forall|place: ProjectPathView| #[trigger]
            self.opened_paths@.contains(place) == lies_at(self.opened_buffers@, place)
    }

    /// The open buffers, which are candidates from the start: those without a path come first.
    pub fn open_candidates(&self) -> (r: Vec<SearchMatchCandidate>)
        ensures
            r@ == self.unnamed_buffers@.map_values(untitled_candidate())
                + self.opened_buffers@.map_values(open_candidate()),
    {
        let mut r: Vec<SearchMatchCandidate> = Vec::new();
        let ghost first = self.unnamed_buffers@.map_values(untitled_candidate());
        let ghost second = self.opened_buffers@.map_values(open_candidate());
        assert(first.take(0) =~= Seq::empty());
        for i in 0..self.unnamed_buffers.len()
            invariant
                first == self.unnamed_buffers@.map_values(untitled_candidate()),
                r@ == first.take(i as int),
        {
            r.push(
                SearchMatchCandidate::OpenBuffer { buffer: self.unnamed_buffers[i], path: None },
            );
            assert(r@ =~= first.take(i + 1));
        }
        let n: usize = self.opened_buffers.len();
        assert(r@ =~= first + second.take(0));
        for i in 0..n
            invariant
                n == self.opened_buffers@.len(),
                second == self.opened_buffers@.map_values(open_candidate()),
                r@ == first + second.take(i as int),
        {
            r.push(
                SearchMatchCandidate::OpenBuffer {
                    buffer: self.opened_buffers[i].1,
                    path: Some(self.opened_buffers[i].0.path.clone()),
                },
            );
            assert(r@ =~= first + second.take(i + 1));
        }
        assert(second.take(n as int) =~= second);
        r
    }

    fn scan_part(&self, i: usize, from: usize, to: usize, out: &mut Vec<SearchFile>)
        requires
            self.is_valid(),
            i < self.snapshots@.len(),
            from <= to <= self.snapshots@[i as int].files@.len(),
        ensures
            file_views(final(out)@) == file_views(old(out)@) + files_of(
                self.snapshots@[i as int]@,
            ).subrange(from as int, to as int).filter(not_open(self.opened_buffers@)),
    {
        let snapshot = &self.snapshots[i];
        let ghost all = files_of(snapshot@);
        let ghost p = not_open(self.opened_buffers@);
        assert(all.subrange(from as int, from as int) =~= Seq::empty());
        assert(file_views(out@) + all.subrange(from as int, from as int).filter(p) =~= file_views(
            out@,
        )) by {
            reveal(Seq::filter);
        }
        for k in from..to
            invariant
                self.is_valid(),
                from <= to <= snapshot.files@.len(),
                all == files_of(snapshot@),
                p == not_open(self.opened_buffers@),
                file_views(out@) == file_views(old(out)@) + all.subrange(
                    from as int,
                    k as int,
                ).filter(p),
        {
            let ghost before = out@;
            let ghost head = all.subrange(from as int, k as int);
            proof {
                assert(all.subrange(from as int, k + 1) =~= head.push(all[k as int]));
                head.lemma_filter_push(all[k as int], p);
            }
            let path = &snapshot.files[k];
            let place = ProjectPath { worktree_id: snapshot.id, path: path.clone() };
            if !self.opened_paths.contains(&place) {
                out.push(
                    SearchFile {
                        worktree_id: snapshot.id,
                        path: path.clone(),
                        abs_path: snapshot.abs_path.join(path),
                    },
                );
                assert(file_views(out@) =~= file_views(before).push(out@.last()@));
                assert(out@.last()@ == all[k as int]);
            }
            assert(file_views(out@) =~= file_views(old(out)@) + all.subrange(
                from as int,
                k + 1,
            ).filter(p));
        }
    }

    /// The files that a worker looks into: its share, without the files that are open.
    pub fn background_search(&self, worker: usize) -> (r: Vec<SearchFile>)
        requires
            self.is_valid(),
            worker < self.workers,
        ensures
            file_views(r@) == share(self.files(), self.workers as int, worker as int).filter(
                not_open(self.opened_buffers@),
            ),
    {
        let ghost ss = snapshot_views(self.snapshots@);
        let ghost files = self.files();
        let ghost p = not_open(self.opened_buffers@);
        proof {
            lemma_worker_bounds(self.path_count as int, self.workers as int, worker as int);
        }
        let per: usize = (self.path_count + (self.workers - 1)) / self.workers;
        let start: usize = worker * per;
        let end: usize = start + per;
        let mut r: Vec<SearchFile> = Vec::new();
        let mut first: usize = 0;
        proof {
            assert(ss.take(0) =~= Seq::empty());
            reveal(Seq::filter);
            assert(file_views(r@) =~= Seq::empty());
            assert(Seq::<SearchFileView>::empty().subrange(0, 0) =~= Seq::empty());
        }
        for i in 0..self.snapshots.len()
            invariant
                self.is_valid(),
                ss == snapshot_views(self.snapshots@),
                files == self.files(),
                p == not_open(self.opened_buffers@),
                0 <= start <= end,
                first == all_files(ss.take(i as int)).len(),
                ({
                    let known = all_files(ss.take(i as int));
                    let n = known.len() as int;
                    file_views(r@) == known.subrange(clip(start as int, n), clip(end as int, n)).filter(
                        p,
                    )
                }),
        {
            let ghost known = all_files(ss.take(i as int));
            let ghost more = files_of(ss[i as int]);
            let ghost n = known.len() as int;
            let ghost m = more.len() as int;
            let ghost before = r@;
            proof {
                lemma_files_grow(ss, i as int);
            }
            let last: usize = first + self.snapshots[i].files.len();
            let ghost mine = if end <= first || start > last {
                Seq::empty()
            } else {
                more.subrange(
                    if start <= first { 0 } else { start - first },
                    clip(end as int, last as int) - first,
                )
            };
            if end > first && start <= last {
                let from: usize = if start <= first {
                    0
                } else {
                    start - first
                };
                let to: usize = (if end <= last {
                    end
                } else {
                    last
                }) - first;
                self.scan_part(i, from, to, &mut r);
            } else {
                proof {
                    reveal(Seq::filter);
                    assert(file_views(r@) + Seq::<SearchFileView>::empty() =~= file_views(r@));
                }
            }
            proof {
                let all = known + more;
                let head = known.subrange(clip(start as int, n), clip(end as int, n));
                assert(all.subrange(clip(start as int, n + m), clip(end as int, n + m)) =~= head
                    + mine);
                Seq::filter_distributes_over_add(head, mine, p);
            }
            first = last;
        }
        assert(ss.take(self.snapshots@.len() as int) =~= ss);
        r
    }
}

/// The shares of the first `n` workers, one after the other.
pub open spec fn shares(files: Seq<SearchFileView>, workers: int, n: int) -> Seq<SearchFileView>
    decreases n,
{
    if n <= 0 {
        Seq::empty()
    } else {
        shares(files, workers, n - 1) + share(files, workers, n - 1)
    }
}

proof fn lemma_shares(files: Seq<SearchFileView>, workers: int, n: int)
    requires
        0 < workers <= files.len(),
        0 <= n <= workers,
    ensures
        shares(files, workers, n) == files.take(
            clip(n * files_per_worker(files.len() as int, workers), files.len() as int),
        ),
    decreases n,
{
    let count = files.len() as int;
    let per = files_per_worker(count, workers);
    if n == 0 {
        assert(0 * per == 0) by (nonlinear_arith);
        assert(files.take(0) =~= Seq::empty());
    } else {
        lemma_shares(files, workers, n - 1);
        lemma_worker_bounds(count, workers, n - 1);
        let a = clip((n - 1) * per, count);
        let b = clip(n * per, count);
        assert((n - 1 + 1) * per == n * per);
        assert(files.take(a) + files.subrange(a, b) =~= files.take(b));
    }
}

/// The workers share the files among them: every file is in exactly one share.
pub proof fn every_file_has_one_worker(files: Seq<SearchFileView>, workers: int)
    requires
        0 < workers <= files.len(),
    ensures
        shares(files, workers, workers) == files,
{
    lemma_shares(files, workers, workers);
    lemma_worker_bounds(files.len() as int, workers, workers - 1);
    assert(files.take(files.len() as int) =~= files);
}

/// A file becomes a candidate if the query is about its path and its contents hold a match.
pub fn candidate_for_file(file: SearchFile, path_matches: bool, contents_match: bool) -> (r: Option<
    SearchMatchCandidate,
>)
    ensures
        r == (if path_matches && contents_match {
            Some(
                SearchMatchCandidate::Path { worktree_id: file.worktree_id, path: file.path },
            )
        } else {
            None::<SearchMatchCandidate>
        }),
{
    if path_matches && contents_match {
        Some(SearchMatchCandidate::Path { worktree_id: file.worktree_id, path: file.path })
    } else {
        None
    }
}

/// Candidates, each with the path that it is ordered by.
pub open spec fn by_path(candidates: Seq<SearchMatchCandidate>) -> Seq<
    (Option<Path>, SearchMatchCandidate),
> {
    candidates.map_values(|c: SearchMatchCandidate| (c.path_of(), c))
}

/// Candidates in the order of their paths.
pub open spec fn sorted_candidates(candidates: Seq<SearchMatchCandidate>) -> Seq<
    SearchMatchCandidate,
> {
    stable_sort(by_path(candidates)).map_values(|p: (Option<Path>, SearchMatchCandidate)| p.1)
}

/// How the buffer of a candidate is got.
#[derive(Debug)]
pub enum CandidateBuffer {
    Open(EntityId),
    ToOpen(ProjectPath),
}

/// Puts the candidates in the order of their paths. Those without a path come first.
pub fn sort_candidates_and_open_buffers(candidates: &Vec<SearchMatchCandidate>) -> (r: Vec<
    SearchMatchCandidate,
>)
    ensures
        r@ == sorted_candidates(candidates@),
{
    let mut keyed: Vec<(Option<Path>, SearchMatchCandidate)> = Vec::new();
    let ghost all = by_path(candidates@);
    assert(all.take(0) =~= Seq::empty());
    for i in 0..candidates.len()
        invariant
            all == by_path(candidates@),
            keyed@ == all.take(i as int),
    {
        keyed.push((candidates[i].path(), candidates[i].clone()));
        assert(keyed@ =~= all.take(i + 1));
    }
    assert(all.take(candidates@.len() as int) =~= all);
    let keyed = sort_by_key(keyed);
    let ghost sorted = sorted_candidates(candidates@);
    let mut r: Vec<SearchMatchCandidate> = Vec::new();
    assert(sorted.take(0) =~= Seq::empty());
    for i in 0..keyed.len()
        invariant
            sorted == keyed@.map_values(|p: (Option<Path>, SearchMatchCandidate)| p.1),
            r@ == sorted.take(i as int),
    {
        r.push(keyed[i].1.clone());
        assert(r@ =~= sorted.take(i + 1));
    }
    assert(sorted.take(keyed@.len() as int) =~= sorted);
    r
}

impl SearchMatchCandidate {
    /// The candidate's buffer, or the path at which it has to be opened.
    pub fn buffer(&self) -> (r: CandidateBuffer)
        ensures
            r == (match *self {
                SearchMatchCandidate::OpenBuffer { buffer, .. } => CandidateBuffer::Open(buffer),
                SearchMatchCandidate::Path { worktree_id, path } => CandidateBuffer::ToOpen(
                    ProjectPath { worktree_id, path },
                ),
            }),
    {
        match self {
            SearchMatchCandidate::OpenBuffer { buffer, .. } => CandidateBuffer::Open(*buffer),
            SearchMatchCandidate::Path { worktree_id, path } => CandidateBuffer::ToOpen(
                ProjectPath { worktree_id: *worktree_id, path: path.clone() },
            ),
        }
    }
}

/// No candidate is lost or made up, and none comes before one whose path is smaller.
pub proof fn candidates_come_in_the_order_of_their_paths(candidates: Seq<SearchMatchCandidate>)
    ensures
        ({
            let sorted = sorted_candidates(candidates);
            &&& sorted.len() == candidates.len()
            &&& sorted.to_multiset() == candidates.to_multiset()
            &&& forall|i: int, j: int|
                #![trigger sorted[i], sorted[j]]
                0 <= i < j < sorted.len() ==> !<Option<Path> as Key>::before(
                    sorted[j].path_of().key(),
                    sorted[i].path_of().key(),
                )
        }),
{
    let keyed = by_path(candidates);
    let t = stable_sort(keyed);
    let second = |p: (Option<Path>, SearchMatchCandidate)| p.1;
    let sorted = sorted_candidates(candidates);
    sorting_orders_and_keeps(keyed);
    lemma_same_items_mapped(t, keyed, second);
    assert(keyed.map_values(second) =~= candidates);
    assert forall|i: int| 0 <= i < t.len() implies (#[trigger] t[i]).0 == t[i].1.path_of() by {
        assert(t.contains(t[i]));
        to_multiset_contains(t, t[i]);
        to_multiset_contains(keyed, t[i]);
        assert(keyed.contains(t[i]));
    }
    assert forall|i: int, j: int|
        #![trigger sorted[i], sorted[j]]
        0 <= i < j < sorted.len() implies !<Option<Path> as Key>::before(
        sorted[j].path_of().key(),
        sorted[i].path_of().key(),
    ) by {
        assert(t[i].0 == sorted[i].path_of());
        assert(t[j].0 == sorted[j].path_of());
    }
}

/// What a search has found in a buffer.
#[derive(Debug)]
pub struct SearchResult {
    pub buffer: EntityId,
    pub ranges: Vec<(Anchor, Anchor)>,
}

/// What the result of a search stands for.
pub struct SearchResultView {
    pub buffer: EntityId,
    pub ranges: Seq<(Anchor, Anchor)>,
}

impl View for SearchResult {
    type V = SearchResultView;

    open spec fn view(&self) -> SearchResultView {
        SearchResultView { buffer: self.buffer, ranges: self.ranges@ }
    }
}

/// A stretch of text that takes in what is typed at its ends.
pub open spec fn anchored() -> spec_fn((usize, usize)) -> (Anchor, Anchor) {
    |r: (usize, usize)|
        (Anchor { offset: r.0, bias: Bias::Left }, Anchor { offset: r.1, bias: Bias::Right })
}

/// The result for a candidate. There is none where its buffer could not be opened, where the query
/// is not about its path, or where its text holds no match.
pub fn search_result(
    buffer: Option<EntityId>,
    path_matches: bool,
    matches: &Vec<(usize, usize)>,
) -> (r: Option<SearchResult>)
    ensures
        match r {
            Some(result) => {
                &&& buffer == Some(result.buffer)
                &&& path_matches && matches@.len() > 0
                &&& result.ranges@ == matches@.map_values(anchored())
                &&& result.ranges@.len() == matches@.len()
                &&& forall|i: int|
                    0 <= i < matches@.len() ==> (#[trigger] result.ranges@[i]).0.offset
                        == matches@[i].0 && result.ranges@[i].1.offset == matches@[i].1
            },
            None => buffer is None || !path_matches || matches@.len() == 0,
        },
{
    match buffer {
        Some(buffer) => {
            if !path_matches || matches.len() == 0 {
                return None;
            }
            let mut ranges: Vec<(Anchor, Anchor)> = Vec::new();
            let ghost all = matches@.map_values(anchored());
            assert(all.take(0) =~= Seq::empty());
            for i in 0..matches.len()
                invariant
                    all == matches@.map_values(anchored()),
                    ranges@ == all.take(i as int),
            {
                ranges.push(
                    (
                        Anchor { offset: matches[i].0, bias: Bias::Left },
                        Anchor { offset: matches[i].1, bias: Bias::Right },
                    ),
                );
                assert(ranges@ =~= all.take(i + 1));
            }
            assert(all.take(matches@.len() as int) =~= all);
            Some(SearchResult { buffer, ranges })
        },
        None => None,
    }
}

/// Results that come in any order and are passed on in the order of their places. A place can
/// turn out to have no result.
#[derive(Debug)]
pub struct ResultQueue<T> {
    /// What has come but has to wait.
    waiting: Vec<Option<Option<T>>>,
    /// The first place of which nothing has come.
    next: usize,
}

/// What a queue of results stands for.
#[verifier::ext_equal]
pub struct QueueView<T> {
    pub waiting: Seq<Option<Option<T>>>,
    pub next: int,
}

impl<T> View for ResultQueue<T> {
    type V = QueueView<T>;

    closed spec fn view(&self) -> QueueView<T> {
        QueueView { waiting: self.waiting@, next: self.next as int }
    }
}

impl<T> QueueView<T> {
    /// A queue for `n` places.
    pub open spec fn fresh(n: nat) -> QueueView<T> {
        QueueView { waiting: Seq::new(n, |i: int| None::<Option<T>>), next: 0 }
    }

    pub open spec fn is_valid(self) -> bool {
        0 <= self.next <= self.waiting.len()
    }

    /// The queue after the results that no longer have to wait were passed on, and these results.
    pub open spec fn passed_on(self) -> (QueueView<T>, Seq<T>)
        decreases self.waiting.len() - self.next,
    {
        if self.next < 0 || self.next >= self.waiting.len() {
            (self, Seq::empty())
        } else {
            match self.waiting[self.next] {
                None => (self, Seq::empty()),
                Some(result) => {
                    let rest = QueueView {
                        waiting: self.waiting.update(self.next, None),
                        next: self.next + 1,
                    }.passed_on();
                    match result {
                        Some(t) => (rest.0, seq![t] + rest.1),
                        None => rest,
                    }
                },
            }
        }
    }

    /// The queue after the result for a place came, and the results that are passed on.
    pub open spec fn after(self, place: int, result: Option<T>) -> (QueueView<T>, Seq<T>) {
        QueueView { waiting: self.waiting.update(place, Some(result)), next: self.next }.passed_on()
    }
}

proof fn lemma_passed_on<T>(q: QueueView<T>)
    requires
        q.is_valid(),
    ensures
        q.passed_on().0.is_valid(),
        q.passed_on().0.waiting.len() == q.waiting.len(),
    decreases q.waiting.len() - q.next,
{
    if q.next < q.waiting.len() && q.waiting[q.next] is Some {
        lemma_passed_on(
            QueueView { waiting: q.waiting.update(q.next, None), next: q.next + 1 },
        );
    }
}

impl<T> ResultQueue<T> {
    pub fn new(n: usize) -> (r: Self)
        ensures
            r@ == QueueView::<T>::fresh(n as nat),
    {
        let mut waiting: Vec<Option<Option<T>>> = Vec::new();
        for i in 0..n
            invariant
                waiting@ == Seq::new(i as nat, |j: int| None::<Option<T>>),
        {
            waiting.push(None);
            assert(waiting@ =~= Seq::new((i + 1) as nat, |j: int| None::<Option<T>>));
        }
        ResultQueue { waiting, next: 0 }
    }

    /// Takes the result for a place, and passes on the results that no longer have to wait.
    pub fn finished(&mut self, place: usize, result: Option<T>) -> (r: Vec<T>)
        requires
            old(self)@.is_valid(),
            place < old(self)@.waiting.len(),
            old(self)@.waiting[place as int] is None,
        ensures
            final(self)@.is_valid(),
            (final(self)@, r@) == old(self)@.after(place as int, result),
    {
        let mut r: Vec<T> = Vec::new();
        self.waiting.set(place, Some(result));
        let ghost start = self@;
        proof {
            lemma_passed_on(start);
            assert(r@ + self@.passed_on().1 =~= self@.passed_on().1);
        }
        while self.next < self.waiting.len()
            invariant_except_break
                self@.is_valid(),
                self@.passed_on().0 == start.passed_on().0,
                r@ + self@.passed_on().1 == start.passed_on().1,
            ensures
                (self@, r@) == start.passed_on(),
            decreases self.waiting.len() - self.next,
        {
            let ghost before = self@;
            let ghost told = r@;
            let mut slot: Option<Option<T>> = None;
            let next: usize = self.next;
            std::mem::swap(&mut self.waiting[next], &mut slot);
            match slot {
                None => {
                    assert(self@ =~= before);
                    assert(r@ + Seq::<T>::empty() =~= r@);
                    break;
                },
                Some(result) => {
                    self.next = next + 1;
                    assert(self@ =~= QueueView {
                        waiting: before.waiting.update(before.next, None),
                        next: before.next + 1,
                    });
                    if let Some(t) = result {
                        r.push(t);
                        assert(r@ + self@.passed_on().1 =~= told + (seq![t]
                            + self@.passed_on().1));
                    }
                },
            }
        }
        r
    }

    /// Tells whether all places have been passed.
    pub fn is_done(&self) -> (r: bool)
        requires
            self@.is_valid(),
        ensures
            r == (self@.next == self@.waiting.len()),
    {
        self.next == self.waiting.len()
    }
}

/// A queue that the results for the given places have come to, one after the other, and all that
/// it has passed on.
pub open spec fn queue_run<T>(results: Seq<Option<T>>, places: Seq<int>) -> (QueueView<T>, Seq<T>)
    decreases places.len(),
{
    if places.len() == 0 {
        (QueueView::fresh(results.len()), Seq::empty())
    } else {
        let (q, told) = queue_run(results, places.drop_last());
        let (after, more) = q.after(places.last(), results[places.last()]);
        (after, told + more)
    }
}

pub open spec fn itself<T>() -> spec_fn(Option<T>) -> Option<T> {
    |r: Option<T>| r
}

/// The queue holds what has come for places from `next` on.
pub open spec fn queue_holds<T>(q: QueueView<T>, results: Seq<Option<T>>, places: Seq<int>) -> bool {
    &&& q.is_valid()
    &&& q.waiting.len() == results.len()
    &&& forall|i: int| 0 <= i < q.next ==> places.contains(i)
    &&& forall|i: int| 0 <= i < q.next ==> (#[trigger] q.waiting[i]) is None
    &&& forall|i: int|
        q.next <= i < q.waiting.len() ==> #[trigger] q.waiting[i] == (if places.contains(i) {
            Some(results[i])
        } else {
            None
        })
}

proof fn lemma_pass_on<T>(q: QueueView<T>, results: Seq<Option<T>>, places: Seq<int>)
    requires
        queue_holds(q, results, places),
    ensures
        ({
            let (after, more) = q.passed_on();
            &&& queue_holds(after, results, places)
            &&& after.next < results.len() ==> !places.contains(after.next)
            &&& results.take(q.next).filter_map(itself()) + more == results.take(
                after.next,
            ).filter_map(itself())
        }),
    decreases q.waiting.len() - q.next,
{
    let head = results.take(q.next).filter_map(itself());
    if q.next < q.waiting.len() && q.waiting[q.next] is Some {
        let r = QueueView { waiting: q.waiting.update(q.next, None), next: q.next + 1 };
        assert(places.contains(q.next));
        lemma_pass_on(r, results, places);
        lemma_filter_map_step(results, itself(), q.next);
        let more = r.passed_on().1;
        if let Some(t) = results[q.next] {
            assert(head.push(t) + more =~= head + (seq![t] + more));
        }
    } else {
        assert(head + Seq::<T>::empty() =~= head);
    }
}

/// Whatever the order in which results come, they are passed on in the order of their places: what
/// has been passed on are the results of the places before the first one that is missing.
pub proof fn results_keep_their_order<T>(results: Seq<Option<T>>, places: Seq<int>)
    requires
        forall|k: int| 0 <= k < places.len() ==> 0 <= #[trigger] places[k] < results.len(),
        places.no_duplicates(),
    ensures
        ({
            let (q, told) = queue_run(results, places);
            &&& queue_holds(q, results, places)
            &&& q.next < results.len() ==> !places.contains(q.next)
            &&& told == results.take(q.next).filter_map(itself())
        }),
    decreases places.len(),
{
    if places.len() == 0 {
        lemma_take_all(results);
    } else {
        let before = places.drop_last();
        let p = places.last();
        assert(places =~= before.push(p));
        assert(forall|i: int| #[trigger] places.contains(i) == (before.contains(i) || i == p)) by {
            assert forall|i: int| #[trigger] places.contains(i) implies before.contains(i) || i
                == p by {
                let k = choose|k: int| 0 <= k < places.len() && places[k] == i;
                if k < before.len() {
                    assert(before[k] == i);
                }
            }
            assert forall|i: int| before.contains(i) || i == p implies #[trigger] places.contains(
                i,
            ) by {
                if before.contains(i) {
                    let k = choose|k: int| 0 <= k < before.len() && before[k] == i;
                    assert(places[k] == i);
                } else {
                    assert(places[places.len() - 1] == i);
                }
            }
        }
        assert(!before.contains(p)) by {
            if before.contains(p) {
                let k = choose|k: int| 0 <= k < before.len() && before[k] == p;
                assert(places[k] == places[places.len() - 1]);
            }
        }
        results_keep_their_order(results, before);
        let (q, told) = queue_run(results, before);
        let r = QueueView { waiting: q.waiting.update(p, Some(results[p])), next: q.next };
        assert(p >= q.next) by {
            if p < q.next {
                assert(before.contains(p));
            }
        }
        lemma_pass_on(r, results, places);
    }
}

/// Once the results of all places have come, each has been passed on, once and in order.
pub proof fn all_results_are_passed_on<T>(results: Seq<Option<T>>, places: Seq<int>)
    requires
        forall|k: int| 0 <= k < places.len() ==> 0 <= #[trigger] places[k] < results.len(),
        places.no_duplicates(),
        forall|i: int| 0 <= i < results.len() ==> places.contains(i),
    ensures
        queue_run(results, places).1 == results.filter_map(itself()),
        queue_run(results, places).0.next == results.len(),
{
    results_keep_their_order(results, places);
    lemma_take_all(results);
}

/// No two handles refer to the same live buffer.
pub open spec fn handles_are_distinct(es: Seq<(u64, OpenBuffer)>, cx: AppContext) -> bool {
    forall|i: int, j: int|
        #![trigger es[i], es[j]]
        0 <= i < j < es.len() && es[i].1.live(cx) is Some && es[j].1.live(cx) is Some ==> es[
        i].1.live(cx)->0.entity_id != es[j].1.live(cx)->0.entity_id
}

/// The candidate for a file that is not open.
pub open spec fn file_candidate() -> spec_fn(ProjectPath) -> SearchMatchCandidate {
    |p: ProjectPath| SearchMatchCandidate::Path { worktree_id: p.worktree_id, path: p.path }
}

/// All candidates of a search that has found the given files.
pub open spec fn all_candidates(
    es: Seq<(u64, OpenBuffer)>,
    cx: AppContext,
    found: Seq<ProjectPath>,
) -> Seq<SearchMatchCandidate> {
    es.filter_map(unnamed(cx)).map_values(untitled_candidate()) + es.filter_map(
        named(cx),
    ).map_values(open_candidate()) + found.map_values(file_candidate())
}

/// The buffer of a candidate, where `opened` gives the buffers that files are opened in.
pub open spec fn buffer_for(
    c: SearchMatchCandidate,
    opened: spec_fn(ProjectPathView) -> EntityId,
) -> EntityId {
    match c {
        SearchMatchCandidate::OpenBuffer { buffer, .. } => buffer,
        SearchMatchCandidate::Path { worktree_id, path } => opened(
            ProjectPathView { worktree_id, path: path@ },
        ),
    }
}

/// Files are opened in buffers of their own, none of which was open before.
pub open spec fn opens_new_buffers(
    es: Seq<(u64, OpenBuffer)>,
    cx: AppContext,
    found: Seq<ProjectPath>,
    opened: spec_fn(ProjectPathView) -> EntityId,
) -> bool {
    &&& forall|i: int, j: int|
        #![trigger found[i], found[j]]
        0 <= i < j < found.len() ==> opened(found[i]@) != opened(found[j]@)
    &&& forall|i: int, j: int|
        #![trigger es[i], found[j]]
        0 <= i < es.len() && 0 <= j < found.len() && es[i].1.live(cx) is Some ==> es[i].1.live(
            cx,
        )->0.entity_id != opened(found[j]@)
}

/// Items that differ in a key still do so where each is mapped or left out.
proof fn lemma_filter_map_differs<T, U, K>(
    s: Seq<T>,
    f: spec_fn(T) -> Option<U>,
    key: spec_fn(U) -> K,
)
    requires
        forall|i: int, j: int|
            #![trigger s[i], s[j]]
            0 <= i < j < s.len() && f(s[i]) is Some && f(s[j]) is Some ==> key(f(s[i])->0) != key(
                f(s[j])->0,
            ),
    ensures
        forall|i: int, j: int|
            #![trigger s.filter_map(f)[i], s.filter_map(f)[j]]
            0 <= i < j < s.filter_map(f).len() ==> key(s.filter_map(f)[i]) != key(
                s.filter_map(f)[j],
            ),
    decreases s.len(),
{
    lemma_take_all(s);
    if s.len() > 0 {
        let n = s.len() - 1;
        let head = s.take(n);
        let before = head.filter_map(f);
        let all = s.filter_map(f);
        assert forall|i: int, j: int|
            #![trigger head[i], head[j]]
            0 <= i < j < head.len() && f(head[i]) is Some && f(head[j]) is Some implies key(
            f(head[i])->0,
        ) != key(f(head[j])->0) by {
            assert(head[i] == s[i] && head[j] == s[j]);
        }
        lemma_filter_map_differs(head, f, key);
        lemma_filter_map_step(s, f, n);
        assert forall|i: int, j: int|
            #![trigger all[i], all[j]]
            0 <= i < j < all.len() implies key(all[i]) != key(all[j]) by {
            assert(all[i] == before[i]);
            if j < before.len() {
                assert(all[j] == before[j]);
            } else {
                assert(before.contains(before[i]));
                head.lemma_filter_map_contains(f, before[i]);
                let t = choose|t: T| #[trigger] head.contains(t) && f(t) == Some(before[i]);
                let k = choose|k: int| 0 <= k < head.len() && head[k] == t;
                assert(s[k] == t);
                assert(f(s[n]) == Some(all[j]));
            }
        }
    }
}

/// What is mapped from some handle is mapped from a handle at some place.
proof fn lemma_from_handle<U>(
    es: Seq<(u64, OpenBuffer)>,
    f: spec_fn((u64, OpenBuffer)) -> Option<U>,
    i: int,
) -> (k: int)
    requires
        0 <= i < es.filter_map(f).len(),
    ensures
        0 <= k < es.len(),
        f(es[k]) == Some(es.filter_map(f)[i]),
{
    let u = es.filter_map(f)[i];
    assert(es.filter_map(f).contains(u));
    es.lemma_filter_map_contains(f, u);
    let t = choose|t: (u64, OpenBuffer)| #[trigger] es.contains(t) && f(t) == Some(u);
    choose|k: int| 0 <= k < es.len() && es[k] == t
}

/// What an item is mapped to is not left out.
proof fn lemma_filter_map_has<T, U>(s: Seq<T>, f: spec_fn(T) -> Option<U>, n: int, i: int)
    requires
        0 <= i < n <= s.len(),
        f(s[i]) is Some,
    ensures
        s.take(n).filter_map(f).contains(f(s[i])->0),
    decreases n,
{
    let u = f(s[i])->0;
    lemma_filter_map_step(s, f, n - 1);
    let before = s.take(n - 1).filter_map(f);
    let all = s.take(n).filter_map(f);
    if i < n - 1 {
        lemma_filter_map_has(s, f, n - 1, i);
        let k = choose|k: int| 0 <= k < before.len() && before[k] == u;
        assert(all[k] == u);
    } else {
        assert(all[before.len() as int] == u);
    }
}

/// Every open buffer is a candidate, whether or not it has a file, and whatever files there are.
pub proof fn every_open_buffer_is_a_candidate(
    es: Seq<(u64, OpenBuffer)>,
    cx: AppContext,
    found: Seq<ProjectPath>,
    i: int,
) -> (place: int)
    requires
        0 <= i < es.len(),
        es[i].1.live(cx) is Some,
    ensures
        0 <= place < all_candidates(es, cx, found).len(),
        all_candidates(es, cx, found)[place] matches SearchMatchCandidate::OpenBuffer { buffer, path }
            && buffer == es[i].1.live(cx)->0.entity_id && match es[i].1.live(cx)->0.file {
            Some(file) => path == Some(file.path),
            None => path is None,
        },
{
    let a = es.filter_map(unnamed(cx));
    let b = es.filter_map(named(cx));
    lemma_take_all(es);
    if unnamed(cx)(es[i]) is Some {
        let u = unnamed(cx)(es[i])->0;
        lemma_filter_map_has(es, unnamed(cx), es.len() as int, i);
        choose|k: int| 0 <= k < a.len() && a[k] == u
    } else {
        let u = named(cx)(es[i])->0;
        lemma_filter_map_has(es, named(cx), es.len() as int, i);
        a.len() + choose|k: int| 0 <= k < b.len() && b[k] == u
    }
}

/// No two candidates of a search have the same buffer: the open buffers are different ones, and the
/// files that were found are opened in others.
pub proof fn candidates_have_buffers_of_their_own(
    es: Seq<(u64, OpenBuffer)>,
    cx: AppContext,
    found: Seq<ProjectPath>,
    opened: spec_fn(ProjectPathView) -> EntityId,
)
    requires
        handles_are_distinct(es, cx),
        opens_new_buffers(es, cx, found, opened),
    ensures
        ({
            let cs = all_candidates(es, cx, found);
            forall|i: int, j: int|
                #![trigger cs[i], cs[j]]
                0 <= i < j < cs.len() ==> buffer_for(cs[i], opened) != buffer_for(cs[j], opened)
        }),
{
    let cs = all_candidates(es, cx, found);
    let a = es.filter_map(unnamed(cx));
    let b = es.filter_map(named(cx));
    let first = |e: EntityId| e;
    let second = |p: (ProjectPath, EntityId)| p.1;
    lemma_filter_map_differs(es, unnamed(cx), first);
    lemma_filter_map_differs(es, named(cx), second);
    assert forall|i: int, j: int|
        #![trigger cs[i], cs[j]]
        0 <= i < j < cs.len() implies buffer_for(cs[i], opened) != buffer_for(cs[j], opened) by {
        let m = a.len() as int;
        let n = b.len() as int;
        if j < m {
            assert(first(a[i]) != first(a[j]));
        } else if i < m && j < m + n {
            let k = lemma_from_handle(es, unnamed(cx), i);
            let l = lemma_from_handle(es, named(cx), j - m);
            if k < l {
                assert(es[k].1.live(cx)->0.entity_id != es[l].1.live(cx)->0.entity_id);
            } else {
                assert(es[l].1.live(cx)->0.entity_id != es[k].1.live(cx)->0.entity_id);
            }
        } else if i < m {
            let k = lemma_from_handle(es, unnamed(cx), i);
            assert(es[k].1.live(cx)->0.entity_id != opened(found[j - m - n]@));
        } else if j < m + n {
            assert(second(b[i - m]) != second(b[j - m]));
        } else if i < m + n {
            let k = lemma_from_handle(es, named(cx), i - m);
            assert(es[k].1.live(cx)->0.entity_id != opened(found[j - m - n]@));
        } else {
            assert(opened(found[i - m - n]@) != opened(found[j - m - n]@));
        }
    }
}

/// Sorting keeps candidates apart that have buffers of their own.
proof fn lemma_sorted_differ(
    cs: Seq<SearchMatchCandidate>,
    opened: spec_fn(ProjectPathView) -> EntityId,
)
    requires
        forall|i: int, j: int|
            #![trigger cs[i], cs[j]]
            0 <= i < j < cs.len() ==> buffer_for(cs[i], opened) != buffer_for(cs[j], opened),
    ensures
        ({
            let s = sorted_candidates(cs);
            forall|i: int, j: int|
                #![trigger s[i], s[j]]
                0 <= i < j < s.len() ==> buffer_for(s[i], opened) != buffer_for(s[j], opened)
        }),
{
    let s = sorted_candidates(cs);
    candidates_come_in_the_order_of_their_paths(cs);
    assert(cs.no_duplicates()) by {
        assert forall|i: int, j: int| 0 <= i < cs.len() && 0 <= j < cs.len() && i
            != j implies cs[i] != cs[j] by {
            if i < j {
                assert(buffer_for(cs[i], opened) != buffer_for(cs[j], opened));
            } else {
                assert(buffer_for(cs[j], opened) != buffer_for(cs[i], opened));
            }
        }
    }
    cs.lemma_multiset_has_no_duplicates();
    s.lemma_multiset_has_no_duplicates_conv();
    assert forall|i: int, j: int|
        #![trigger s[i], s[j]]
        0 <= i < j < s.len() implies buffer_for(s[i], opened) != buffer_for(s[j], opened) by {
        assert(s.contains(s[i]) && s.contains(s[j]));
        to_multiset_contains(s, s[i]);
        to_multiset_contains(s, s[j]);
        to_multiset_contains(cs, s[i]);
        to_multiset_contains(cs, s[j]);
        let a = choose|a: int| 0 <= a < cs.len() && cs[a] == s[i];
        let b = choose|b: int| 0 <= b < cs.len() && cs[b] == s[j];
        assert(s[i] != s[j]);
        if a < b {
            assert(buffer_for(cs[a], opened) != buffer_for(cs[b], opened));
        } else {
            assert(buffer_for(cs[b], opened) != buffer_for(cs[a], opened));
        }
    }
}

/// A search reports each buffer at most once, in whatever order the candidates have been searched.
pub proof fn no_buffer_is_reported_twice(
    es: Seq<(u64, OpenBuffer)>,
    cx: AppContext,
    found: Seq<ProjectPath>,
    opened: spec_fn(ProjectPathView) -> EntityId,
    results: Seq<Option<SearchResult>>,
    places: Seq<int>,
)
    requires
        handles_are_distinct(es, cx),
        opens_new_buffers(es, cx, found, opened),
        results.len() == sorted_candidates(all_candidates(es, cx, found)).len(),
        forall|i: int|
            0 <= i < results.len() && (#[trigger] results[i]) is Some ==> results[i]->0.buffer
                == buffer_for(sorted_candidates(all_candidates(es, cx, found))[i], opened),
        forall|k: int| 0 <= k < places.len() ==> 0 <= #[trigger] places[k] < results.len(),
        places.no_duplicates(),
    ensures
        ({
            let told = queue_run(results, places).1;
            forall|i: int, j: int|
                #![trigger told[i], told[j]]
                0 <= i < j < told.len() ==> told[i].buffer != told[j].buffer
        }),
{
    let cs = all_candidates(es, cx, found);
    let s = sorted_candidates(cs);
    candidates_have_buffers_of_their_own(es, cx, found, opened);
    lemma_sorted_differ(cs, opened);
    results_keep_their_order(results, places);
    let (q, told) = queue_run(results, places);
    let known = results.take(q.next);
    let key = |r: SearchResult| r.buffer;
    assert forall|i: int, j: int|
        #![trigger known[i], known[j]]
        0 <= i < j < known.len() && itself()(known[i]) is Some && itself()(
            known[j],
        ) is Some implies key(itself()(known[i])->0) != key(itself()(known[j])->0) by {
        assert(known[i] == results[i] && known[j] == results[j]);
        assert(buffer_for(s[i], opened) != buffer_for(s[j], opened));
    }
    lemma_filter_map_differs(known, itself(), key);
    assert forall|i: int, j: int|
        #![trigger told[i], told[j]]
        0 <= i < j < told.len() implies told[i].buffer != told[j].buffer by {
        assert(key(known.filter_map(itself())[i]) != key(known.filter_map(itself())[j]));
    }
}

/// Where a search is made.
#[derive(Debug, Clone, Copy, PartialEq, Eq, Structural)]
pub enum SearchPlace {
    Here,
    /// The host of the project is asked.
    Host { project_id: u64 },
}

/// A match that a host tells of. Its buffer has been waited for.
#[derive(Debug, Clone, Copy, PartialEq, Eq, Structural)]
pub struct FoundLocation {
    pub buffer: EntityId,
    pub start: Option<Anchor>,
    pub end: Option<Anchor>,
}

pub open spec fn is_complete(location: FoundLocation) -> bool {
    location.start is Some && location.end is Some
}

/// The buffers that matches lie in, each with its ranges.
pub open spec fn grouped(found: Seq<FoundLocation>) -> Map<EntityId, Seq<(Anchor, Anchor)>>
    decreases found.len(),
{
    if found.len() == 0 {
        Map::empty()
    } else {
        let head = grouped(found.drop_last());
        let l = found.last();
        head.insert(
            l.buffer,
            (if head.contains_key(l.buffer) {
                head[l.buffer]
            } else {
                Seq::empty()
            }).push((l.start->0, l.end->0)),
        )
    }
}

pub open spec fn range_views(m: Map<EntityId, Vec<(Anchor, Anchor)>>) -> Map<
    EntityId,
    Seq<(Anchor, Anchor)>,
> {
    m.map_values(|v: Vec<(Anchor, Anchor)>| v@)
}

impl Project {
    /// Tells where a search is made.
    pub fn search(&self) -> (r: SearchPlace)
        ensures
            r == (match self.client_state {
                Some(ProjectClientState::Remote { remote_id, .. }) => SearchPlace::Host {
                    project_id: remote_id,
                },
                _ => SearchPlace::Here,
            }),
    {
        match self.client_state {
            Some(ProjectClientState::Remote { remote_id, .. }) => SearchPlace::Host {
                project_id: remote_id,
            },
            _ => SearchPlace::Here,
        }
    }
}

/// Brings the matches that a host has told of together by buffer.
pub fn gather_locations(found: &Vec<FoundLocation>) -> (r: Result<
    SortedMap<EntityId, Vec<(Anchor, Anchor)>>,
    ProjectError,
>)
    ensures
        match r {
            Ok(m) => {
                &&& forall|i: int| 0 <= i < found@.len() ==> is_complete(#[trigger] found@[i])
                &&& range_views(m@) == grouped(found@)
            },
            Err(e) => exists|k: int|
                0 <= k < found@.len() && !is_complete(#[trigger] found@[k]) && (forall|j: int|
                    0 <= j < k ==> is_complete(#[trigger] found@[j])) && e == (
                if found@[k].start is None {
                    ProjectError::MissingTargetStart
                } else {
                    ProjectError::MissingTargetEnd
                }),
        },
{
    let mut m: SortedMap<EntityId, Vec<(Anchor, Anchor)>> = SortedMap::new();
    proof {
        lemma_take_all(found@);
        assert(range_views(m@) =~= Map::empty());
    }
    for i in 0..found.len()
        invariant
            forall|j: int| 0 <= j < i ==> is_complete(#[trigger] found@[j]),
            range_views(m@) == grouped(found@.take(i as int)),
    {
        let l = found[i];
        let ghost before = m@;
        let ghost head = grouped(found@.take(i as int));
        proof {
            assert(found@.take(i + 1).drop_last() =~= found@.take(i as int));
            assert(head.contains_key(l.buffer) == before.contains_key(l.buffer));
        }
        match (l.start, l.end) {
            (None, _) => return Err(ProjectError::MissingTargetStart),
            (Some(_), None) => return Err(ProjectError::MissingTargetEnd),
            (Some(start), Some(end)) => {
                let mut ranges: Vec<(Anchor, Anchor)> = match m.remove(&l.buffer) {
                    Some(ranges) => ranges,
                    None => Vec::new(),
                };
                assert(head.contains_key(l.buffer) ==> ranges@ == head[l.buffer]);
                ranges.push((start, end));
                m.insert(l.buffer, ranges);
                assert(range_views(m@) =~= grouped(found@.take(i + 1)));
            },
        }
    }
    Ok(m)
}

/// The range of a match in the given buffer.
pub open spec fn range_in(buffer: EntityId) -> spec_fn(FoundLocation) -> Option<(Anchor, Anchor)> {
    |l: FoundLocation|
        if l.buffer == buffer {
            Some((l.start->0, l.end->0))
        } else {
            None
        }
}

/// A buffer is named exactly if a match lies in it, and it is named with all its matches, in the
/// order in which the host told of them.
pub proof fn buffers_keep_their_matches(found: Seq<FoundLocation>, buffer: EntityId)
    ensures
        ({
            let ranges = found.filter_map(range_in(buffer));
            &&& grouped(found).contains_key(buffer) == (ranges.len() > 0)
            &&& ranges.len() > 0 ==> grouped(found)[buffer] == ranges
        }),
    decreases found.len(),
{
    lemma_take_all(found);
    if found.len() > 0 {
        let n = found.len() - 1;
        buffers_keep_their_matches(found.drop_last(), buffer);
        lemma_filter_map_step(found, range_in(buffer), n);
        assert(found.take(n) =~= found.drop_last());
        let ranges = found.drop_last().filter_map(range_in(buffer));
        if ranges.len() == 0 {
            assert(ranges =~= Seq::empty());
        }
    }
}

/// A match as a host tells of it.
#[derive(Debug, Clone, Copy, PartialEq, Eq, Structural)]
pub struct LocationMessage {
    pub buffer_id: u64,
    pub start: Anchor,
    pub end: Anchor,
}

/// The messages for the ranges of a buffer.
pub open spec fn told_ranges(buffer_id: u64) -> spec_fn((Anchor, Anchor)) -> LocationMessage {
    |r: (Anchor, Anchor)| LocationMessage { buffer_id, start: r.0, end: r.1 }
}

impl Project {
    /// Tells a guest of the matches in a buffer. The guest is sent the buffer for each of them.
    pub fn handle_search_project(
        &self,
        buffer: &Buffer,
        ranges: &Vec<(Anchor, Anchor)>,
        peer_id: PeerId,
        out: &mut Vec<Effect>,
    ) -> (r: Vec<LocationMessage>)
        ensures
            r@ == ranges@.map_values(told_ranges(buffer.remote_id)),
            r@.len() == ranges@.len(),
            forall|i: int|
                0 <= i < ranges@.len() ==> (#[trigger] r@[i]).buffer_id == buffer.remote_id
                    && r@[i].start == ranges@[i].0 && r@[i].end == ranges@[i].1,
            final(out)@ == (if self.client_state matches Some(ProjectClientState::Local { .. }) {
                old(out)@ + Seq::new(
                    ranges@.len(),
                    |i: int|
                        Effect::QueueUpdate(
                            LocalProjectUpdate::CreateBufferForPeer {
                                peer_id,
                                buffer_id: buffer.remote_id,
                            },
                        ),
                )
            } else {
                old(out)@
            }),
    {
        let mut r: Vec<LocationMessage> = Vec::new();
        let ghost all = ranges@.map_values(told_ranges(buffer.remote_id));
        let ghost effect = Effect::QueueUpdate(
            LocalProjectUpdate::CreateBufferForPeer { peer_id, buffer_id: buffer.remote_id },
        );
        let ghost hosting = self.client_state matches Some(ProjectClientState::Local { .. });
        assert(all.take(0) =~= Seq::empty());
        assert(out@ + Seq::new(0, |j: int| effect) =~= out@);
        for i in 0..ranges.len()
            invariant
                all == ranges@.map_values(told_ranges(buffer.remote_id)),
                effect == Effect::QueueUpdate(
                    LocalProjectUpdate::CreateBufferForPeer {
                        peer_id,
                        buffer_id: buffer.remote_id,
                    },
                ),
                hosting == (self.client_state matches Some(ProjectClientState::Local { .. })),
                r@ == all.take(i as int),
                out@ == (if hosting {
                    old(out)@ + Seq::new(i as nat, |j: int| effect)
                } else {
                    old(out)@
                }),
        {
            let buffer_id: u64 = self.create_buffer_for_peer(buffer, peer_id, out);
            r.push(LocationMessage { buffer_id, start: ranges[i].0, end: ranges[i].1 });
            assert(r@ =~= all.take(i + 1));
            proof {
                if hosting {
                    assert(out@ =~= old(out)@ + Seq::new((i + 1) as nat, |j: int| effect));
                }
            }
        }
        assert(all.take(ranges@.len() as int) =~= all);
        proof {
            if hosting {
                assert(out@ =~= old(out)@ + Seq::new(ranges@.len(), |j: int| effect));
            }
        }
        r
    }
}

/// A match is reported where it was found: its range begins at its start and ends at its end, and
/// takes in what is typed at its ends.
pub proof fn matches_are_reported_where_they_are(
    matches: Seq<(usize, usize)>,
    ranges: Seq<(Anchor, Anchor)>,
)
    requires
        ranges == matches.map_values(anchored()),
    ensures
        ranges.len() == matches.len(),
        forall|i: int|
            0 <= i < matches.len() ==> {
                &&& (#[trigger] ranges[i]).0.offset == matches[i].0
                &&& ranges[i].1.offset == matches[i].1
                &&& ranges[i].0.bias is Left
                &&& ranges[i].1.bias is Right
            },
{
}

proof fn lemma_grouped_in_one(found: Seq<FoundLocation>, buffer: EntityId)
    requires
        forall|i: int| 0 <= i < found.len() ==> (#[trigger] found[i]).buffer == buffer,
    ensures
        found.len() > 0 ==> grouped(found).contains_key(buffer),
        found.len() > 0 ==> grouped(found)[buffer].len() == found.len(),
        found.len() > 0 ==> forall|i: int|
            0 <= i < found.len() ==> #[trigger] grouped(found)[buffer][i] == (
                found[i].start->0,
                found[i].end->0,
            ),
        found.len() == 0 ==> !grouped(found).contains_key(buffer),
    decreases found.len(),
{
    if found.len() > 0 {
        let head = found.drop_last();
        assert forall|i: int| 0 <= i < head.len() implies (#[trigger] head[i]).buffer == buffer by {
            assert(head[i] == found[i]);
        }
        lemma_grouped_in_one(head, buffer);
        assert(found.last().buffer == buffer) by {
            assert(found[found.len() - 1].buffer == buffer);
        }
    }
}

/// A guest gets the ranges that the host has found: gathered again, the locations that the host
/// tells of give for the buffer exactly its ranges, in their order.
pub proof fn guests_get_the_ranges_that_were_found(
    buffer_id: u64,
    ranges: Seq<(Anchor, Anchor)>,
    told: Seq<LocationMessage>,
    buffer: EntityId,
    found: Seq<FoundLocation>,
)
    requires
        told == ranges.map_values(told_ranges(buffer_id)),
        found.len() == told.len(),
        forall|i: int|
            0 <= i < told.len() ==> (#[trigger] found[i]).buffer == buffer && found[i].start
                == Some(told[i].start) && found[i].end == Some(told[i].end),
    ensures
        told.len() == ranges.len(),
        forall|i: int|
            0 <= i < ranges.len() ==> (#[trigger] told[i]).buffer_id == buffer_id && told[i].start
                == ranges[i].0 && told[i].end == ranges[i].1,
        forall|i: int| 0 <= i < found.len() ==> is_complete(#[trigger] found[i]),
        ranges.len() > 0 ==> grouped(found).contains_key(buffer) && grouped(found)[buffer]
            == ranges,
        ranges.len() == 0 ==> !grouped(found).contains_key(buffer),
{
    lemma_grouped_in_one(found, buffer);
    if ranges.len() > 0 {
        assert(grouped(found)[buffer] =~= ranges);
    }
}

proof fn lemma_all_files_has(snapshots: Seq<SnapshotView>, k: int, j: int)
    requires
        0 <= k < snapshots.len(),
        0 <= j < snapshots[k].files.len(),
    ensures
        all_files(snapshots).contains(files_of(snapshots[k])[j]),
    decreases snapshots.len(),
{
    let head = snapshots.drop_last();
    let last = files_of(snapshots.last());
    let all = all_files(snapshots);
    if k == snapshots.len() - 1 {
        assert(all[all_files(head).len() + j] == last[j]);
    } else {
        lemma_all_files_has(head, k, j);
        let f = files_of(snapshots[k])[j];
        let i = choose|i: int| 0 <= i < all_files(head).len() && all_files(head)[i] == f;
        assert(all[i] == f);
    }
}

proof fn lemma_all_files_from(snapshots: Seq<SnapshotView>, i: int) -> (r: (int, int))
    requires
        0 <= i < all_files(snapshots).len(),
    ensures
        0 <= r.0 < snapshots.len(),
        0 <= r.1 < snapshots[r.0].files.len(),
        all_files(snapshots)[i] == files_of(snapshots[r.0])[r.1],
    decreases snapshots.len(),
{
    let head = snapshots.drop_last();
    let n = all_files(head).len();
    if i < n {
        lemma_all_files_from(head, i)
    } else {
        (snapshots.len() - 1, i - n)
    }
}

/// Every file of a visible worktree that lies here is searched, under its own path, unless git
/// ignores it.
pub proof fn every_visible_file_is_searched(project: Project, cx: AppContext, h: int, k: int)
    requires
        0 <= h < project.worktrees@.len(),
        project.worktrees@[h].live(cx) matches Some(w) && w.is_visible && w.is_local && 0 <= k
            < w.entries@.len() && w.entries@[k].is_file && !w.entries@[k].is_ignored,
    ensures
        ({
            let w = project.worktrees@[h].live(cx)->0;
            let e = w.entries@[k];
            project.searched_files(cx).contains(
                SearchFileView {
                    worktree_id: w.id,
                    path: e.path@,
                    abs_path: joined(w.abs_path@, e.path@),
                },
            )
        }),
{
    let w = project.worktrees@[h].live(cx)->0;
    let hs = project.worktrees@;
    let snapshots = hs.filter_map(searched(cx));
    lemma_filter_map_has(hs, searched(cx), hs.len() as int, h);
    lemma_take_all(hs);
    let s = searched(cx)(hs[h])->0;
    let a = choose|a: int| 0 <= a < snapshots.len() && snapshots[a] == s;
    lemma_filter_map_has(w.entries@, visible_file(), w.entries@.len() as int, k);
    lemma_take_all(w.entries@);
    let j = choose|j: int| 0 <= j < s.files.len() && s.files[j] == w.entries@[k].path;
    lemma_all_files_has(snapshots, a, j);
}

/// Nothing else is searched on disk: each file that is looked into is a file of a visible worktree
/// that lies here, is not ignored, and lies below the root of its worktree.
pub proof fn only_visible_files_are_searched(project: Project, cx: AppContext, i: int) -> (r: (int, int))
    requires
        0 <= i < project.searched_files(cx).len(),
    ensures
        0 <= r.0 < project.worktrees@.len(),
        project.worktrees@[r.0].live(cx) matches Some(w) && w.is_visible && w.is_local && 0 <= r.1
            < w.entries@.len() && w.entries@[r.1].is_file && !w.entries@[r.1].is_ignored && {
            let f = project.searched_files(cx)[i];
            &&& f.worktree_id == w.id
            &&& f.path == w.entries@[r.1].path@
            &&& f.abs_path == joined(w.abs_path@, w.entries@[r.1].path@)
        },
{
    let hs = project.worktrees@;
    let snapshots = hs.filter_map(searched(cx));
    let (a, j) = lemma_all_files_from(snapshots, i);
    let h = lemma_filter_map_from(hs, searched(cx), a);
    let w = hs[h].live(cx)->0;
    let k = lemma_filter_map_from(w.entries@, visible_file(), j);
    (h, k)
}

/// A file is left out of the search on disk exactly if an open buffer has it: one of the same
/// worktree and the same path.
pub proof fn only_open_files_are_skipped(
    es: Seq<(u64, OpenBuffer)>,
    cx: AppContext,
    file: SearchFileView,
)
    ensures
        not_open(es.filter_map(named(cx)))(file) == !(exists|i: int|
            0 <= i < es.len() && ((#[trigger] es[i]).1.live(cx) matches Some(b) && (b.file matches Some(
                f,
            ) && f.worktree_id == file.worktree_id && f.path@ == file.path))),
{
    let open = es.filter_map(named(cx));
    let place = ProjectPathView { worktree_id: file.worktree_id, path: file.path };
    lemma_take_all(es);
    if lies_at(open, place) {
        let k = choose|k: int| 0 <= k < open.len() && (#[trigger] open[k]).0@ == place;
        let i = lemma_filter_map_from(es, named(cx), k);
        assert(es[i].1.live(cx) is Some);
    }
    if exists|i: int|
        0 <= i < es.len() && ((#[trigger] es[i]).1.live(cx) matches Some(b) && (b.file matches Some(f)
            && f.worktree_id == file.worktree_id && f.path@ == file.path)) {
        let i = choose|i: int|
            0 <= i < es.len() && ((#[trigger] es[i]).1.live(cx) matches Some(b) && (
            b.file matches Some(f) && f.worktree_id == file.worktree_id && f.path@ == file.path));
        lemma_filter_map_has(es, named(cx), es.len() as int, i);
        let u = named(cx)(es[i])->0;
        let k = choose|k: int| 0 <= k < open.len() && open[k] == u;
        assert(open[k].0@ == place);
    }
}

/// Buffers without a path are searched first, and files come in the order of their paths.
pub proof fn untitled_buffers_come_first(candidates: Seq<SearchMatchCandidate>, i: int, j: int)
    requires
        0 <= i < j < candidates.len(),
    ensures
        ({
            let sorted = sorted_candidates(candidates);
            &&& sorted[j] matches SearchMatchCandidate::OpenBuffer { path: None, .. } ==> (
            sorted[i] matches SearchMatchCandidate::OpenBuffer { path: None, .. })
            &&& sorted[i] matches SearchMatchCandidate::Path { path: p, .. } ==> (
            sorted[j] matches SearchMatchCandidate::Path { path: q, .. } ==> !<Path as Key>::before(
                q@,
                p@,
            ))
        }),
{
    candidates_come_in_the_order_of_their_paths(candidates);
    let sorted = sorted_candidates(candidates);
    assert(!<Option<Path> as Key>::before(
        sorted[j].path_of().key(),
        sorted[i].path_of().key(),
    ));
}

} // verus!
