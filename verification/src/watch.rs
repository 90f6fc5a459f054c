//! Telling language servers of the files that they watch.

use crate::effects::{
    Effect, FileChangeType, FileEvent, PathChange, ServerNotification, UpdatedEntry,
};
use crate::ids::{EntityId, LanguageServerId, WorktreeId};
use crate::lifecycle::works_on;
use crate::map::{has_key, lemma_entry, lemma_has_entry, lists, SortedMap, SortedSet};
use crate::model::{AppContext, Worktree};
use crate::outside::{
    add_glob, added_globs, all_plain, build_glob_set, free_of_backslashes, glob_is_valid,
    glob_patterns, glob_set_is_match, is_plain, new_glob_set_builder, some_glob_matches, texts,
};
use crate::path::{glob_literal_prefix, joined, literal_prefix, path_text, Path};
use crate::project::{LanguageServerState, Project, WorktreeHandle};
use crate::seqs::{
    find_map, lemma_filter_map_step, lemma_find_map_found, lemma_find_map_none, lemma_take_all,
};
use crate::text::without_prefix;
use globset::GlobSet;
use vstd::prelude::*;

verus! {

/// The files that a server wants to hear of: all that a glob matches, or those below a directory.
#[derive(Debug, PartialEq, Eq)]
pub enum GlobPattern {
    Text(String),
    Relative { base: Option<String>, pattern: String },
}

/// The glob as seen from the directory with the given path, if it speaks of that directory.
pub open spec fn relative_glob(abs_path: Seq<char>, glob: GlobPattern) -> Option<Seq<char>> {
    match glob {
        GlobPattern::Text(s) => if abs_path.push('/').is_prefix_of(s@) {
            Some(s@.skip(abs_path.len() as int + 1))
        } else {
            None
        },
        GlobPattern::Relative { base: Some(b), pattern } => if b@ == abs_path {
            Some(pattern@)
        } else {
            None
        },
        GlobPattern::Relative { base: None, .. } => None,
    }
}

/// A glob that a worktree is to be watched with.
pub struct PlacedView {
    pub worktree: EntityId,
    pub worktree_id: WorktreeId,
    pub pattern: Seq<char>,
}

#[derive(Debug, PartialEq, Eq)]
pub struct PlacedGlob {
    pub worktree: EntityId,
    pub worktree_id: WorktreeId,
    pub pattern: String,
}

impl View for PlacedGlob {
    type V = PlacedView;

    open spec fn view(&self) -> PlacedView {
        PlacedView {
            worktree: self.worktree,
            worktree_id: self.worktree_id,
            pattern: self.pattern@,
        }
    }
}

pub open spec fn placed_views(placed: Seq<PlacedGlob>) -> Seq<PlacedView> {
    placed.map_values(|p: PlacedGlob| p@)
}

pub open spec fn placed_in(cx: AppContext, glob: GlobPattern) -> spec_fn(WorktreeHandle) -> Option<
    PlacedView,
> {
    |h: WorktreeHandle|
        match h.live(cx) {
            Some(w) => match relative_glob(path_text(w.abs_path@), glob) {
                Some(pattern) => Some(
                    PlacedView { worktree: w.entity_id, worktree_id: w.id, pattern },
                ),
                None => None,
            },
            None => None,
        }
}

/// The first worktree that a glob speaks of.
pub open spec fn placement(project: Project, cx: AppContext) -> spec_fn(GlobPattern) -> Option<
    PlacedView,
> {
    |glob: GlobPattern| find_map(project.worktrees@, placed_in(cx, glob))
}

fn relative_pattern(abs_path: &String, glob: &GlobPattern) -> (r: Option<String>)
    ensures
        match r {
            Some(p) => relative_glob(abs_path@, *glob) == Some(p@),
            None => relative_glob(abs_path@, *glob) is None,
        },
{
    match glob {
        GlobPattern::Text(s) => {
            let ghost whole = abs_path@.push('/');
            proof {
                reveal_strlit("/");
            }
            match without_prefix(s.as_str(), abs_path.as_str()) {
                Some(rest) => {
                    let ghost n = abs_path@.len() as int;
                    match without_prefix(rest, "/") {
                        Some(tail) => {
                            proof {
                                assert(rest@.subrange(0, 1)[0] == '/');
                                assert(s@[n] == rest@[0]);
                                assert(whole =~= s@.subrange(0, n + 1));
                                assert(tail@ =~= s@.skip(n + 1));
                            }
                            Some(tail.to_owned())
                        },
                        None => {
                            proof {
                                if whole.is_prefix_of(s@) {
                                    assert(whole[n] == s@.subrange(0, n + 1)[n]);
                                    assert(rest@[0] == '/');
                                    assert("/"@ =~= rest@.subrange(0, 1));
                                }
                            }
                            None
                        },
                    }
                },
                None => {
                    proof {
                        if whole.is_prefix_of(s@) {
                            let n = abs_path@.len() as int;
                            assert(abs_path@ =~= s@.subrange(0, n)) by {
                                assert forall|i: int| 0 <= i < n implies abs_path@[i] == s@[i] by {
                                    assert(whole[i] == s@.subrange(0, n + 1)[i]);
                                }
                            }
                        }
                    }
                    None
                },
            }
        },
        GlobPattern::Relative { base: Some(b), pattern } => {
            if *b == *abs_path {
                Some(pattern.clone())
            } else {
                None
            }
        },
        GlobPattern::Relative { base: None, .. } => None,
    }
}

/// The patterns among the first `n` that are to be watched for in a worktree.
pub open spec fn patterns_for(
    placed: Seq<PlacedView>,
    parses: Seq<bool>,
    n: int,
    id: WorktreeId,
) -> Seq<Seq<char>>
    decreases n,
{
    if n <= 0 {
        Seq::empty()
    } else {
        let head = patterns_for(placed, parses, n - 1, id);
        if placed[n - 1].worktree_id == id && parses[n - 1] {
            head.push(placed[n - 1].pattern)
        } else {
            head
        }
    }
}

/// Groups the patterns that could be parsed by their worktrees.
pub fn patterns_by_worktree(placed: &Vec<PlacedGlob>, parses: &Vec<bool>) -> (r: SortedMap<
    WorktreeId,
    Vec<String>,
>)
    requires
        placed@.len() == parses@.len(),
    ensures
        forall|id: WorktreeId| #[trigger]
            r@.contains_key(id) == (patterns_for(
                placed_views(placed@),
                parses@,
                placed@.len() as int,
                id,
            ).len() > 0),
        forall|id: WorktreeId| #[trigger]
            r@.contains_key(id) ==> texts(r@[id]@) == patterns_for(
                placed_views(placed@),
                parses@,
                placed@.len() as int,
                id,
            ),
{
    let mut r: SortedMap<WorktreeId, Vec<String>> = SortedMap::new();
    let ghost views = placed_views(placed@);
    for i in 0..placed.len()
        invariant
            placed@.len() == parses@.len(),
            views == placed_views(placed@),
            forall|id: WorktreeId| #[trigger]
                r@.contains_key(id) == (patterns_for(views, parses@, i as int, id).len() > 0),
            forall|id: WorktreeId| #[trigger]
                r@.contains_key(id) ==> texts(r@[id]@) == patterns_for(
                    views,
                    parses@,
                    i as int,
                    id,
                ),
    {
        let ghost before = r@;
        if parses[i] {
            let id = placed[i].worktree_id;
            let mut patterns = match r.remove(&id) {
                Some(p) => p,
                None => Vec::new(),
            };
            let ghost head = texts(patterns@);
            assert(before.contains_key(id) == (patterns_for(views, parses@, i as int, id).len()
                > 0));
            assert(head =~= patterns_for(views, parses@, i as int, id));
            patterns.push(placed[i].pattern.clone());
            assert(texts(patterns@) =~= head.push(views[i as int].pattern));
            r.insert(id, patterns);
        }
        assert forall|k: WorktreeId| #[trigger]
            r@.contains_key(k) == (patterns_for(views, parses@, i + 1, k).len() > 0) && (
            r@.contains_key(k) ==> texts(r@[k]@) == patterns_for(views, parses@, i + 1, k)) by {
            assert(before.contains_key(k) == (patterns_for(views, parses@, i as int, k).len() > 0));
        }
    }
    r
}

/// The entry at `i` is that of the worktree, and its patterns could be made into a set.
pub open spec fn set_at(
    patterns: Seq<(WorktreeId, Vec<String>)>,
    built: Seq<Option<GlobSet>>,
    id: WorktreeId,
    i: int,
) -> bool {
    0 <= i < built.len() && patterns[i].0 == id && built[i] is Some
}

/// Keeps the sets that the patterns of the worktrees could be made into. `built` holds what came
/// of the patterns of each worktree.
pub fn watched_sets(
    patterns: &SortedMap<WorktreeId, Vec<String>>,
    built: Vec<Option<GlobSet>>,
) -> (r: SortedMap<WorktreeId, GlobSet>)
    requires
        built@.len() == patterns.entries().len(),
    ensures
        forall|id: WorktreeId| #[trigger]
            r@.contains_key(id) == (exists|i: int| set_at(patterns.entries(), built@, id, i)),
        forall|i: int|
            0 <= i < built@.len() && ((#[trigger] built@[i]) is Some) ==> r@.contains_key(
                patterns.entries()[i].0,
            ) && r@[patterns.entries()[i].0] == built@[i]->0,
{
    let mut r: SortedMap<WorktreeId, GlobSet> = SortedMap::new();
    let mut left = built;
    let ghost es = patterns.entries();
    let count: usize = patterns.len();
    while left.len() > 0
        invariant
            es == patterns.entries(),
            crate::map::sorted(es),
            built@.len() == es.len(),
            left@.len() <= built@.len(),
            left@ == built@.take(left@.len() as int),
            forall|id: WorktreeId| #[trigger]
                r@.contains_key(id) == (exists|i: int|
                    left@.len() <= i && #[trigger] set_at(es, built@, id, i)),
            forall|i: int|
                left@.len() <= i < built@.len() && ((#[trigger] built@[i]) is Some)
                    ==> r@.contains_key(es[i].0) && r@[es[i].0] == built@[i]->0,
        decreases left@.len(),
    {
        let ghost before = r@;
        let ghost m = left@.len() - 1;
        let i: usize = left.len() - 1;
        let item = left.pop();
        assert(left@ =~= built@.take(m));
        if let Some(Some(set)) = item {
            assert(built@[m] == Some(set));
            r.insert(*patterns.key_of(i), set);
            assert(set_at(es, built@, es[m].0, m));
        }
        assert forall|id: WorktreeId| #[trigger]
            r@.contains_key(id) == (exists|k: int| m <= k && #[trigger] set_at(es, built@, id, k)) by {
            assert(before.contains_key(id) == (exists|k: int|
                m + 1 <= k && #[trigger] set_at(es, built@, id, k)));
            if before.contains_key(id) {
                let k = choose|k: int| m + 1 <= k && #[trigger] set_at(es, built@, id, k);
                assert(m <= k && set_at(es, built@, id, k));
            }
            if exists|k: int| m <= k && #[trigger] set_at(es, built@, id, k) {
                let k = choose|k: int| m <= k && #[trigger] set_at(es, built@, id, k);
                if k == m {
                    assert(es[m].0 == id && built@[m] is Some);
                } else {
                    assert(m + 1 <= k && set_at(es, built@, id, k));
                }
            }
        }
        assert forall|k: int|
            m <= k < built@.len() && ((#[trigger] built@[k]) is Some) implies r@.contains_key(
            es[k].0,
        ) && r@[es[k].0] == built@[k]->0 by {
            if k > m {
                assert(crate::order::Key::key(es[m].0) != crate::order::Key::key(es[k].0)) by {
                    <WorktreeId as crate::order::Key>::before_irreflexive(
                        crate::order::Key::key(es[m].0),
                    );
                }
            }
        }
    }
    r
}

/// The set of the given globs. There is none where one of them cannot be parsed, or where they
/// cannot be compiled.
fn glob_set_of(patterns: &Vec<String>) -> (r: Option<GlobSet>)
    ensures
        r matches Some(set) ==> glob_patterns(set) == texts(patterns@),
        all_plain(texts(patterns@)) ==> r is Some,
{
    let mut builder = new_glob_set_builder();
    let ghost all = texts(patterns@);
    assert(all.take(0) =~= Seq::empty());
    for i in 0..patterns.len()
        invariant
            all == texts(patterns@),
            added_globs(builder) == all.take(i as int),
    {
        assert(all[i as int] == patterns@[i as int]@);
        if !add_glob(&mut builder, patterns[i].as_str()) {
            return None;
        }
        assert(added_globs(builder) =~= all.take(i + 1));
    }
    assert(all.take(patterns@.len() as int) =~= all);
    build_glob_set(&builder)
}

/// The verdicts on the patterns are those of the glob parser, so far as these are claimed.
pub open spec fn judged(parses: Seq<bool>, placed: Seq<PlacedView>) -> bool {
    &&& parses.len() == placed.len()
    &&& forall|i: int|
        0 <= i < placed.len() && free_of_backslashes((#[trigger] placed[i]).pattern) ==> parses[i]
            == glob_is_valid(placed[i].pattern)
    &&& forall|i: int|
        0 <= i < placed.len() && is_plain((#[trigger] placed[i]).pattern) ==> parses[i]
}

/// A running server that watches globs of the given patterns, and nothing else of which changed.
pub open spec fn rewatched(
    before: LanguageServerState,
    after: LanguageServerState,
    placed: Seq<PlacedView>,
    parses: Seq<bool>,
) -> bool {
    match (before, after) {
        (
            LanguageServerState::Running {
                language,
                adapter,
                server,
                simulate_disk_based_diagnostics_completion,
                ..
            },
            LanguageServerState::Running {
                language: l,
                adapter: a,
                server: s,
                watched_paths,
                simulate_disk_based_diagnostics_completion: c,
            },
        ) => {
            &&& l == language
            &&& a == adapter
            &&& s == server
            &&& c == simulate_disk_based_diagnostics_completion
            &&& watches(watched_paths@, placed, parses)
        },
        _ => false,
    }
}

/// Every worktree that is watched is watched with all its patterns, and no worktree is left out
/// whose patterns are all without wildcards.
pub open spec fn watches(
    watched: Map<WorktreeId, GlobSet>,
    placed: Seq<PlacedView>,
    parses: Seq<bool>,
) -> bool {
    forall|id: WorktreeId|
        {
            let patterns = patterns_for(placed, parses, placed.len() as int, id);
            &&& #[trigger] watched.contains_key(id) ==> patterns.len() > 0 && glob_patterns(
                watched[id],
            ) == patterns
            &&& patterns.len() > 0 && all_plain(patterns) ==> watched.contains_key(id)
        }
}

/// The effect has the part of the glob that matches only itself scanned.
pub open spec fn scans(effect: Effect, p: PlacedView) -> bool {
    match effect {
        Effect::ScanPathPrefix { worktree, prefix } => worktree == p.worktree && prefix@
            == literal_prefix(p.pattern),
        _ => false,
    }
}

/// The effects that follow the first `n` have the globs scanned, one after the other.
pub open spec fn scan_effects(out: Seq<Effect>, n: int, placed: Seq<PlacedView>) -> bool {
    &&& out.len() >= n + placed.len()
    &&& forall|i: int| 0 <= i < placed.len() ==> scans(out[n + i], #[trigger] placed[i])
}

/// A server registers what it wants to hear of by the name of a method; this one is about files.
pub const WATCHED_FILES_METHOD: &'static str = "workspace/didChangeWatchedFiles";

/// Tells whether a server registers files that it wants to watch.
pub fn registers_watched_files(method: &str, has_options: bool) -> (r: bool)
    ensures
        r == (method@ == WATCHED_FILES_METHOD@ && has_options),
{
    crate::order::same(&method.to_owned(), &WATCHED_FILES_METHOD.to_owned()) && has_options
}

/// The patterns lie in worktrees that are kept here.
pub open spec fn watches_here(project: Project, cx: AppContext, watchers: Seq<GlobPattern>) -> bool {
    forall|i: int|
        0 <= i < watchers.len() ==> (placement(project, cx)(#[trigger] watchers[i]) matches Some(p)
            ==> cx.live_worktree(p.worktree)->0.is_local)
}

/// The server is up and running.
pub open spec fn is_running(project: Project, id: LanguageServerId) -> bool {
    project.language_servers@.contains_key(id) && project.language_servers@[id] is Running
}

/// A running server watches the files that it asks for, and no others.
pub open spec fn watchers_replaced(
    before: Project,
    after: Project,
    cx: AppContext,
    id: LanguageServerId,
    watchers: Seq<GlobPattern>,
    told: Seq<Effect>,
    out: Seq<Effect>,
) -> bool {
    let servers = before.language_servers@;
    let now = after.language_servers@;
    let n = told.len() as int;
    &&& if servers.contains_key(id) && servers[id] is Running {
        let placed = watchers.filter_map(placement(before, cx));
        &&& now.contains_key(id)
        &&& now.remove(id) == servers.remove(id)
        &&& exists|parses: Seq<bool>| #[trigger]
            judged(parses, placed) && rewatched(servers[id], now[id], placed, parses)
        &&& out.len() == n + placed.len() + 1
        &&& out.take(n) == told
        &&& scan_effects(out, n, placed)
        &&& out.last() == Effect::Notify
    } else {
        &&& now == servers
        &&& out == told
    }
    &&& after == (Project { language_servers: after.language_servers, ..before })
}

impl Project {
    /// The worktree that a glob speaks of, with the glob as seen from there.
    pub fn place_glob(&self, glob: &GlobPattern, cx: &AppContext) -> (r: Option<PlacedGlob>)
        ensures
            match r {
                Some(p) => placement(*self, *cx)(*glob) == Some(p@),
                None => placement(*self, *cx)(*glob) is None,
            },
    {
        let ghost f = placed_in(*cx, *glob);
        for i in 0..self.worktrees.len()
            invariant
                f == placed_in(*cx, *glob),
                forall|j: int| 0 <= j < i ==> f(#[trigger] self.worktrees@[j]) is None,
        {
            if let Some(w) = self.worktrees[i].upgrade(cx) {
                if let Some(pattern) = relative_pattern(&w.abs_path.to_text(), glob) {
                    proof {
                        lemma_find_map_found(self.worktrees@, f, i as int);
                    }
                    return Some(
                        PlacedGlob { worktree: w.entity_id, worktree_id: w.id, pattern },
                    );
                }
            }
        }
        proof {
            lemma_find_map_none(self.worktrees@, f);
        }
        None
    }

    fn place_globs(
        &self,
        watchers: &Vec<GlobPattern>,
        cx: &AppContext,
        out: &mut Vec<Effect>,
    ) -> (r: Vec<PlacedGlob>)
        ensures
            placed_views(r@) == watchers@.filter_map(placement(*self, *cx)),
            final(out)@.len() == old(out)@.len() + r@.len(),
            final(out)@.take(old(out)@.len() as int) == old(out)@,
            scan_effects(final(out)@, old(out)@.len() as int, placed_views(r@)),
    {
        let mut placed: Vec<PlacedGlob> = Vec::new();
        let ghost f = placement(*self, *cx);
        let ghost n = out@.len() as int;
        proof {
            lemma_take_all(watchers@);
            assert(placed_views(placed@) =~= Seq::<PlacedView>::empty());
            assert(out@.take(n) =~= out@);
        }
        for i in 0..watchers.len()
            invariant
                f == placement(*self, *cx),
                n == old(out)@.len(),
                placed_views(placed@) == watchers@.take(i as int).filter_map(f),
                out@.len() == n + placed@.len(),
                out@.take(n) == old(out)@,
                scan_effects(out@, n, placed_views(placed@)),
        {
            proof {
                lemma_filter_map_step(watchers@, f, i as int);
            }
            if let Some(p) = self.place_glob(&watchers[i], cx) {
                let ghost views = placed_views(placed@);
                let ghost before = out@;
                let prefix = glob_literal_prefix(p.pattern.as_str()).to_owned();
                out.push(Effect::ScanPathPrefix { worktree: p.worktree, prefix });
                let ghost v = p@;
                placed.push(p);
                proof {
                    assert(placed_views(placed@) =~= views.push(v));
                    assert(out@.take(n) =~= before.take(n));
                    assert forall|k: int| 0 <= k < views.len() + 1 implies scans(
                        out@[n + k],
                        #[trigger] placed_views(placed@)[k],
                    ) by {
                        if k < views.len() {
                            assert(scans(before[n + k], views[k]));
                        }
                    }
                }
            }
        }
        placed
    }

    /// A server asks to hear of changes of files. For each glob the worktree that it speaks of is
    /// scanned where the glob begins, and the server watches the globs that can be parsed.
    pub fn on_lsp_did_change_watched_files(
        &mut self,
        language_server_id: LanguageServerId,
        watchers: &Vec<GlobPattern>,
        cx: &AppContext,
        out: &mut Vec<Effect>,
    )
        requires
            is_running(*old(self), language_server_id) ==> watches_here(
                *old(self),
                *cx,
                watchers@,
            ),
        ensures
            watchers_replaced(
                *old(self),
                *final(self),
                *cx,
                language_server_id,
                watchers@,
                old(out)@,
                final(out)@,
            ),
    {
        let ghost servers = self.language_servers@;
        match self.language_servers.get(&language_server_id) {
            Some(LanguageServerState::Running { .. }) => {},
            _ => return,
        }
        let placed = self.place_globs(watchers, cx, out);
        let ghost views = placed_views(placed@);
        let mut parses: Vec<bool> = Vec::new();
        for i in 0..placed.len()
            invariant
                views == placed_views(placed@),
                parses@.len() == i,
                forall|j: int|
                    0 <= j < i && free_of_backslashes((#[trigger] views[j]).pattern) ==> parses@[j]
                        == glob_is_valid(views[j].pattern),
                forall|j: int| 0 <= j < i && is_plain((#[trigger] views[j]).pattern) ==> parses@[j],
        {
            let mut builder = new_glob_set_builder();
            parses.push(add_glob(&mut builder, placed[i].pattern.as_str()));
            assert(views[i as int].pattern == placed@[i as int].pattern@);
        }
        assert(judged(parses@, views));
        let patterns = patterns_by_worktree(&placed, &parses);
        let n: usize = patterns.len();
        let mut built: Vec<Option<GlobSet>> = Vec::new();
        for i in 0..n
            invariant
                n == patterns.entries().len(),
                built@.len() == i,
                forall|j: int|
                    0 <= j < i ==> ((#[trigger] built@[j]) matches Some(set) ==> glob_patterns(set)
                        == texts(patterns.entries()[j].1@)),
                forall|j: int|
                    0 <= j < i && all_plain(texts(patterns.entries()[j].1@)) ==> (
                    #[trigger] built@[j]) is Some,
        {
            built.push(glob_set_of(patterns.value_of(i)));
        }
        let ghost sets = built@;
        let watched = watched_sets(&patterns, built);
        assert forall|id: WorktreeId|
            {
                let all = patterns_for(views, parses@, placed@.len() as int, id);
                &&& #[trigger] watched@.contains_key(id) ==> all.len() > 0 && glob_patterns(
                    watched@[id],
                ) == all
                &&& all.len() > 0 && all_plain(all) ==> watched@.contains_key(id)
            } by {
            let all = patterns_for(views, parses@, placed@.len() as int, id);
            if watched@.contains_key(id) {
                let i = choose|i: int| set_at(patterns.entries(), sets, id, i);
                assert(sets[i] is Some);
                lemma_entry(patterns.entries(), i);
                assert(watched@[id] == sets[i]->0);
                assert(patterns@.contains_key(id));
                assert(glob_patterns(sets[i]->0) == texts(patterns.entries()[i].1@));
                assert(patterns@[id] == patterns.entries()[i].1);
            }
            if all.len() > 0 && all_plain(all) {
                assert(patterns@.contains_key(id));
                let i = lemma_has_entry(patterns.entries(), id);
                lemma_entry(patterns.entries(), i);
                assert(sets[i] is Some);
                assert(set_at(patterns.entries(), sets, id, i));
            }
        }
        if let Some(LanguageServerState::Running {
            language,
            adapter,
            server,
            simulate_disk_based_diagnostics_completion,
            ..
        }) = self.language_servers.remove(&language_server_id) {
            self.language_servers.insert(
                language_server_id,
                LanguageServerState::Running {
                    language,
                    adapter,
                    server,
                    watched_paths: watched,
                    simulate_disk_based_diagnostics_completion,
                },
            );
        }
        let ghost mid = out@;
        out.push(Effect::Notify);
        proof {
            let id = language_server_id;
            let k = old(out)@.len() as int;
            assert(self.language_servers@.remove(id) =~= servers.remove(id));
            assert(rewatched(servers[id], self.language_servers@[id], views, parses@));
            assert(out@.take(k) =~= mid.take(k));
            assert forall|i: int| 0 <= i < views.len() implies scans(
                out@[k + i],
                #[trigger] views[i],
            ) by {
                assert(scans(mid[k + i], views[i]));
            }
        }
    }
}

/// The globs that a running server watches in a worktree.
pub open spec fn watched_set(project: Project, worktree_id: WorktreeId, id: LanguageServerId) -> Option<
    GlobSet,
> {
    if project.language_servers@.contains_key(id) {
        match project.language_servers@[id] {
            LanguageServerState::Running { watched_paths, .. } => if watched_paths@.contains_key(
                worktree_id,
            ) {
                Some(watched_paths@[worktree_id])
            } else {
                None
            },
            LanguageServerState::Starting => None,
        }
    } else {
        None
    }
}

/// A server works on a worktree and watches files of it.
pub open spec fn is_watching(project: Project, worktree_id: WorktreeId, id: LanguageServerId) -> bool {
    works_on(project.language_server_ids@, id, worktree_id) && watched_set(
        project,
        worktree_id,
        id,
    ) is Some
}

/// Neither the globs nor the path has a backslash.
pub open spec fn without_backslashes(set: GlobSet, path: Seq<char>) -> bool {
    &&& free_of_backslashes(path)
    &&& forall|i: int|
        0 <= i < glob_patterns(set).len() ==> free_of_backslashes(#[trigger] glob_patterns(set)[i])
}

/// For each change, whether a server watches its path.
#[derive(Debug, PartialEq, Eq)]
pub struct Verdicts {
    pub server_id: LanguageServerId,
    pub matches: Vec<bool>,
}

/// The verdicts are those of the globs, so far as these are claimed.
pub open spec fn fits(matches: Seq<bool>, set: GlobSet, changes: Seq<UpdatedEntry>) -> bool {
    &&& matches.len() == changes.len()
    &&& forall|i: int|
        0 <= i < changes.len() && without_backslashes(
            set,
            path_text((#[trigger] changes[i]).path@),
        ) ==> matches[i] == some_glob_matches(glob_patterns(set), path_text(changes[i].path@))
    &&& forall|i: int|
        0 <= i < changes.len() && all_plain(glob_patterns(set)) && free_of_backslashes(
            path_text((#[trigger] changes[i]).path@),
        ) ==> matches[i] == glob_patterns(set).contains(path_text(changes[i].path@))
}

/// Of the files that a server has asked for without wildcards, it hears of exactly those that change:
/// what it has registered for a worktree decides, file by file, what it is told.
pub proof fn asked_for_files_are_reported(
    placed: Seq<PlacedView>,
    parses: Seq<bool>,
    watched: Map<WorktreeId, GlobSet>,
    id: WorktreeId,
    matches: Seq<bool>,
    changes: Seq<UpdatedEntry>,
    i: int,
)
    requires
        judged(parses, placed),
        watches(watched, placed, parses),
        forall|k: int| 0 <= k < placed.len() ==> is_plain((#[trigger] placed[k]).pattern),
        0 <= i < changes.len(),
        free_of_backslashes(path_text(changes[i].path@)),
        watched.contains_key(id) ==> fits(matches, watched[id], changes),
    ensures
        (watched.contains_key(id) && matches[i]) == (exists|k: int|
            0 <= k < placed.len() && (#[trigger] placed[k]).worktree_id == id && placed[k].pattern
                == path_text(changes[i].path@)),
{
    let n = placed.len() as int;
    let path = path_text(changes[i].path@);
    let patterns = patterns_for(placed, parses, n, id);
    lemma_patterns_for(placed, parses, n, id);
    assert(watched.contains_key(id) == (patterns.len() > 0));
    if watched.contains_key(id) && matches[i] {
        let a = choose|a: int| 0 <= a < patterns.len() && patterns[a] == path;
        assert(is_from(placed, n, id, patterns[a]));
    }
    if exists|k: int|
        0 <= k < placed.len() && (#[trigger] placed[k]).worktree_id == id && placed[k].pattern
            == path {
        let k = choose|k: int|
            0 <= k < placed.len() && (#[trigger] placed[k]).worktree_id == id && placed[k].pattern
                == path;
        assert(patterns.contains(placed[k].pattern));
    }
}

spec fn is_from(placed: Seq<PlacedView>, n: int, id: WorktreeId, pattern: Seq<char>) -> bool {
    exists|k: int|
        0 <= k < n && (#[trigger] placed[k]).worktree_id == id && placed[k].pattern == pattern
}

proof fn lemma_patterns_for(placed: Seq<PlacedView>, parses: Seq<bool>, n: int, id: WorktreeId)
    requires
        0 <= n <= placed.len(),
        judged(parses, placed),
        forall|k: int| 0 <= k < placed.len() ==> is_plain((#[trigger] placed[k]).pattern),
    ensures
        forall|a: int|
            0 <= a < patterns_for(placed, parses, n, id).len() ==> is_from(
                placed,
                n,
                id,
                #[trigger] patterns_for(placed, parses, n, id)[a],
            ),
        forall|k: int|
            0 <= k < n && (#[trigger] placed[k]).worktree_id == id ==> patterns_for(
                placed,
                parses,
                n,
                id,
            ).contains(placed[k].pattern),
        all_plain(patterns_for(placed, parses, n, id)),
    decreases n,
{
    if n > 0 {
        lemma_patterns_for(placed, parses, n - 1, id);
        let head = patterns_for(placed, parses, n - 1, id);
        let all = patterns_for(placed, parses, n, id);
        let last = placed[n - 1];
        assert(is_plain(last.pattern));
        assert(parses[n - 1]);
        assert forall|a: int| 0 <= a < all.len() implies is_from(placed, n, id, #[trigger] all[a])
            && is_plain(all[a]) by {
            if a < head.len() {
                assert(head[a] == all[a]);
                assert(is_from(placed, n - 1, id, head[a]));
                let k = choose|k: int|
                    0 <= k < n - 1 && (#[trigger] placed[k]).worktree_id == id && placed[k].pattern
                        == head[a];
                assert(placed[k].worktree_id == id);
            } else {
                assert(placed[n - 1].worktree_id == id && placed[n - 1].pattern == all[a]);
            }
        }
        assert forall|k: int| 0 <= k < n && (#[trigger] placed[k]).worktree_id == id implies all.contains(
            placed[k].pattern,
        ) by {
            if k < n - 1 {
                assert(head.contains(placed[k].pattern));
                let a = choose|a: int| 0 <= a < head.len() && head[a] == placed[k].pattern;
                assert(all[a] == placed[k].pattern);
            } else {
                assert(all[all.len() - 1] == placed[k].pattern);
            }
        }
    }
}

/// There are verdicts for exactly the servers that watch, in the order of their ids.
pub open spec fn lists_watchers(
    verdicts: Seq<Verdicts>,
    project: Project,
    worktree_id: WorktreeId,
    changes: Seq<UpdatedEntry>,
) -> bool {
    &&& forall|i: int, j: int|
        #![trigger verdicts[i], verdicts[j]]
        0 <= i < j < verdicts.len() ==> verdicts[i].server_id.0 < verdicts[j].server_id.0
    &&& forall|i: int|
        0 <= i < verdicts.len() ==> is_watching(
            project,
            worktree_id,
            (#[trigger] verdicts[i]).server_id,
        ) && fits(
            verdicts[i].matches@,
            watched_set(project, worktree_id, verdicts[i].server_id)->0,
            changes,
        )
    &&& forall|id: LanguageServerId| #[trigger]
        is_watching(project, worktree_id, id) ==> has_verdict(verdicts, id)
}

pub open spec fn has_verdict(verdicts: Seq<Verdicts>, id: LanguageServerId) -> bool {
    exists|i: int| 0 <= i < verdicts.len() && (#[trigger] verdicts[i]).server_id == id
}

/// What a server is told of a change; that an entry was loaded is no news.
pub open spec fn change_type(change: PathChange) -> Option<FileChangeType> {
    match change {
        PathChange::Loaded => None,
        PathChange::Added => Some(FileChangeType::Created),
        PathChange::Removed => Some(FileChangeType::Deleted),
        PathChange::Updated => Some(FileChangeType::Changed),
        PathChange::AddedOrUpdated => Some(FileChangeType::Changed),
    }
}

fn file_change_type(change: PathChange) -> (r: Option<FileChangeType>)
    ensures
        r == change_type(change),
{
    match change {
        PathChange::Loaded => None,
        PathChange::Added => Some(FileChangeType::Created),
        PathChange::Removed => Some(FileChangeType::Deleted),
        PathChange::Updated => Some(FileChangeType::Changed),
        PathChange::AddedOrUpdated => Some(FileChangeType::Changed),
    }
}

/// What a file event stands for.
pub struct FileEventView {
    pub path: Seq<crate::path::Part>,
    pub typ: FileChangeType,
}

impl View for FileEvent {
    type V = FileEventView;

    open spec fn view(&self) -> FileEventView {
        FileEventView { path: self.path@, typ: self.typ }
    }
}

pub open spec fn event_views(events: Seq<FileEvent>) -> Seq<FileEventView> {
    events.map_values(|e: FileEvent| e@)
}

/// What a server is told of the first `n` changes.
pub open spec fn events_for(
    abs_path: Seq<crate::path::Part>,
    changes: Seq<UpdatedEntry>,
    matches: Seq<bool>,
    n: int,
) -> Seq<FileEventView>
    decreases n,
{
    if n <= 0 {
        Seq::empty()
    } else {
        let head = events_for(abs_path, changes, matches, n - 1);
        match change_type(changes[n - 1].change) {
            Some(typ) if matches[n - 1] => head.push(
                FileEventView { path: joined(abs_path, changes[n - 1].path@), typ },
            ),
            _ => head,
        }
    }
}

/// The changes that a server is told of, where `matches` tells which paths it watches.
pub fn file_events(abs_path: &Path, changes: &Vec<UpdatedEntry>, matches: &Vec<bool>) -> (r: Vec<
    FileEvent,
>)
    requires
        matches@.len() == changes@.len(),
    ensures
        event_views(r@) == events_for(abs_path@, changes@, matches@, changes@.len() as int),
{
    let mut r: Vec<FileEvent> = Vec::new();
    assert(event_views(r@) =~= Seq::<FileEventView>::empty());
    for i in 0..changes.len()
        invariant
            matches@.len() == changes@.len(),
            event_views(r@) == events_for(abs_path@, changes@, matches@, i as int),
    {
        if matches[i] {
            if let Some(typ) = file_change_type(changes[i].change) {
                let ghost head = event_views(r@);
                let event = FileEvent { path: abs_path.join(&changes[i].path), typ };
                let ghost v = event@;
                r.push(event);
                assert(event_views(r@) =~= head.push(v));
            }
        }
    }
    r
}

/// What a server is told, if it is told anything.
pub open spec fn news_for(abs_path: Seq<crate::path::Part>, changes: Seq<UpdatedEntry>) -> spec_fn(
    Verdicts,
) -> Option<(LanguageServerId, Seq<FileEventView>)> {
    |v: Verdicts|
        {
            let events = events_for(abs_path, changes, v.matches@, changes.len() as int);
            if events.len() > 0 {
                Some((v.server_id, events))
            } else {
                None
            }
        }
}

/// The effect tells a server of the given changes.
pub open spec fn tells(effect: Effect, news: (LanguageServerId, Seq<FileEventView>)) -> bool {
    match effect {
        Effect::NotifyServer(id, ServerNotification::DidChangeWatchedFiles { changes }) => id
            == news.0 && event_views(changes@) == news.1,
        _ => false,
    }
}

/// The effects that follow the first `n` are the given news, and nothing else.
pub open spec fn tells_all(
    out: Seq<Effect>,
    n: int,
    news: Seq<(LanguageServerId, Seq<FileEventView>)>,
) -> bool {
    &&& out.len() == n + news.len()
    &&& forall|i: int| 0 <= i < news.len() ==> tells(out[n + i], #[trigger] news[i])
}

/// Tells each server of the changes of the paths that it watches.
pub fn notify_watchers(
    abs_path: &Path,
    changes: &Vec<UpdatedEntry>,
    verdicts: &Vec<Verdicts>,
    out: &mut Vec<Effect>,
)
    requires
        forall|i: int|
            0 <= i < verdicts@.len() ==> (#[trigger] verdicts@[i]).matches@.len() == changes@.len(),
    ensures
        final(out)@.take(old(out)@.len() as int) == old(out)@,
        tells_all(
            final(out)@,
            old(out)@.len() as int,
            verdicts@.filter_map(news_for(abs_path@, changes@)),
        ),
{
    let ghost f = news_for(abs_path@, changes@);
    let ghost n = out@.len() as int;
    proof {
        lemma_take_all(verdicts@);
        assert(out@.take(n) =~= out@);
    }
    for i in 0..verdicts.len()
        invariant
            f == news_for(abs_path@, changes@),
            n == old(out)@.len(),
            forall|j: int|
                0 <= j < verdicts@.len() ==> (#[trigger] verdicts@[j]).matches@.len()
                    == changes@.len(),
            out@.take(n) == old(out)@,
            tells_all(out@, n, verdicts@.take(i as int).filter_map(f)),
    {
        let ghost news = verdicts@.take(i as int).filter_map(f);
        proof {
            lemma_filter_map_step(verdicts@, f, i as int);
        }
        let events = file_events(abs_path, changes, &verdicts[i].matches);
        if events.len() > 0 {
            let ghost before = out@;
            let ghost told = (verdicts@[i as int].server_id, event_views(events@));
            out.push(
                Effect::NotifyServer(
                    verdicts[i].server_id,
                    ServerNotification::DidChangeWatchedFiles { changes: events },
                ),
            );
            proof {
                assert(out@.take(n) =~= before.take(n));
                assert forall|k: int| 0 <= k < news.len() + 1 implies tells(
                    out@[n + k],
                    #[trigger] news.push(told)[k],
                ) by {
                    if k < news.len() {
                        assert(tells(before[n + k], news[k]));
                    }
                }
            }
        }
    }
}

/// One of the first `n` servers of a worktree has the id.
pub open spec fn serves(
    es: Seq<((WorktreeId, crate::ids::LanguageServerName), LanguageServerId)>,
    n: int,
    worktree_id: WorktreeId,
    id: LanguageServerId,
) -> bool {
    exists|i: int| 0 <= i < n && (#[trigger] es[i]).0.0 == worktree_id && es[i].1 == id
}

proof fn lemma_serves_step(
    es: Seq<((WorktreeId, crate::ids::LanguageServerName), LanguageServerId)>,
    n: int,
    worktree_id: WorktreeId,
    id: LanguageServerId,
)
    requires
        0 <= n < es.len(),
    ensures
        serves(es, n + 1, worktree_id, id) == (serves(es, n, worktree_id, id) || (es[n].0.0
            == worktree_id && es[n].1 == id)),
{
    if serves(es, n + 1, worktree_id, id) {
        let i = choose|i: int|
            0 <= i < n + 1 && (#[trigger] es[i]).0.0 == worktree_id && es[i].1 == id;
        if i < n {
            assert(es[i].0.0 == worktree_id && es[i].1 == id);
        }
    }
    if serves(es, n, worktree_id, id) {
        let i = choose|i: int| 0 <= i < n && (#[trigger] es[i]).0.0 == worktree_id && es[i].1 == id;
        assert(es[i].0.0 == worktree_id && es[i].1 == id);
    }
    if es[n].0.0 == worktree_id && es[n].1 == id {
        assert(es[n].0.0 == worktree_id);
    }
}

impl Project {
    /// The servers that work on a worktree, each once.
    fn server_ids_of_worktree(&self, worktree_id: WorktreeId) -> (r: SortedSet<LanguageServerId>)
        ensures
            forall|id: LanguageServerId| #[trigger]
                r@.contains(id) == works_on(self.language_server_ids@, id, worktree_id),
    {
        let mut r: SortedSet<LanguageServerId> = SortedSet::new();
        let n: usize = self.language_server_ids.len();
        let ghost es = self.language_server_ids.entries();
        for i in 0..n
            invariant
                n == es.len(),
                es == self.language_server_ids.entries(),
                forall|id: LanguageServerId| #[trigger]
                    r@.contains(id) == serves(es, i as int, worktree_id, id),
        {
            let ghost before = r@;
            if self.language_server_ids.key_of(i).0 == worktree_id {
                r.insert(*self.language_server_ids.value_of(i));
            }
            assert forall|id: LanguageServerId| #[trigger]
                r@.contains(id) == serves(es, i + 1, worktree_id, id) by {
                assert(before.contains(id) == serves(es, i as int, worktree_id, id));
                lemma_serves_step(es, i as int, worktree_id, id);
            }
        }
        assert forall|id: LanguageServerId| #[trigger]
            r@.contains(id) == works_on(self.language_server_ids@, id, worktree_id) by {
            if serves(es, n as int, worktree_id, id) {
                let i = choose|i: int|
                    0 <= i < n && (#[trigger] es[i]).0.0 == worktree_id && es[i].1 == id;
                lemma_entry(es, i);
                assert(self.language_server_ids@.contains_key((worktree_id, es[i].0.1@)));
            }
            if works_on(self.language_server_ids@, id, worktree_id) {
                let name = choose|name: Seq<char>|
                    #![trigger self.language_server_ids@.contains_key((worktree_id, name))]
                    self.language_server_ids@.contains_key((worktree_id, name))
                        && self.language_server_ids@[(worktree_id, name)] == id;
                let i = lemma_has_entry(es, (worktree_id, name));
                lemma_entry(es, i);
                assert(es[i].0.0 == worktree_id && es[i].1 == id);
            }
        }
        r
    }

    /// Finds out which of the changes the servers of a worktree watch.
    fn watch_verdicts(&self, worktree_id: WorktreeId, changes: &Vec<UpdatedEntry>) -> (r: Vec<
        Verdicts,
    >)
        ensures
            lists_watchers(r@, *self, worktree_id, changes@),
    {
        let ids = self.server_ids_of_worktree(worktree_id);
        let n: usize = ids.len();
        let ghost items = ids.items();
        let mut r: Vec<Verdicts> = Vec::new();
        for i in 0..n
            invariant
                n == items.len(),
                items == ids.items(),
                lists(items, ids@),
                forall|id: LanguageServerId| #[trigger]
                    ids@.contains(id) == works_on(self.language_server_ids@, id, worktree_id),
                forall|a: int, b: int|
                    #![trigger r@[a], r@[b]]
                    0 <= a < b < r@.len() ==> r@[a].server_id.0 < r@[b].server_id.0,
                forall|a: int|
                    0 <= a < r@.len() ==> is_watching(
                        *self,
                        worktree_id,
                        (#[trigger] r@[a]).server_id,
                    ) && fits(
                        r@[a].matches@,
                        watched_set(*self, worktree_id, r@[a].server_id)->0,
                        changes@,
                    ),
                forall|a: int, k: int|
                    #![trigger r@[a], items[k]]
                    0 <= a < r@.len() && i <= k < n ==> r@[a].server_id.0 < items[k].0,
                forall|k: int|
                    0 <= k < i && is_watching(*self, worktree_id, #[trigger] items[k])
                        ==> has_verdict(r@, items[k]),
        {
            let id = *ids.item(i);
            assert(works_on(self.language_server_ids@, id, worktree_id));
            if let Some(LanguageServerState::Running { watched_paths, .. }) =
                self.language_servers.get(&id) {
                if let Some(set) = watched_paths.get(&worktree_id) {
                    let mut matches: Vec<bool> = Vec::new();
                    for j in 0..changes.len()
                        invariant
                            matches@.len() == j,
                            forall|k: int|
                                0 <= k < j && without_backslashes(
                                    *set,
                                    path_text((#[trigger] changes@[k]).path@),
                                ) ==> matches@[k] == some_glob_matches(
                                    glob_patterns(*set),
                                    path_text(changes@[k].path@),
                                ),
                            forall|k: int|
                                0 <= k < j && all_plain(glob_patterns(*set)) && free_of_backslashes(
                                    path_text((#[trigger] changes@[k]).path@),
                                ) ==> matches@[k] == glob_patterns(*set).contains(
                                    path_text(changes@[k].path@),
                                ),
                    {
                        matches.push(glob_set_is_match(set, changes[j].path.to_text().as_str()));
                    }
                    let ghost before = r@;
                    assert(is_watching(*self, worktree_id, id));
                    assert(fits(matches@, watched_set(*self, worktree_id, id)->0, changes@));
                    r.push(Verdicts { server_id: id, matches });
                    proof {
                        assert forall|a: int, b: int|
                            #![trigger r@[a], r@[b]]
                            0 <= a < b < r@.len() implies r@[a].server_id.0 < r@[b].server_id.0 by {
                            assert(r@[a] == before[a]);
                            if b == before.len() {
                                assert(r@[b].server_id == items[i as int]);
                            } else {
                                assert(r@[b] == before[b]);
                            }
                        }
                        assert forall|a: int, k: int|
                            #![trigger r@[a], items[k]]
                            0 <= a < r@.len() && i + 1 <= k < n implies r@[a].server_id.0
                            < items[k].0 by {
                            if a < before.len() {
                                assert(r@[a] == before[a]);
                            } else {
                                assert(<LanguageServerId as crate::order::Key>::before(
                                    crate::order::Key::key(items[i as int]),
                                    crate::order::Key::key(items[k]),
                                ));
                            }
                        }
                        assert forall|k: int|
                            0 <= k < i + 1 && is_watching(
                                *self,
                                worktree_id,
                                #[trigger] items[k],
                            ) implies has_verdict(r@, items[k]) by {
                            if k < i {
                                let a = choose|a: int|
                                    0 <= a < before.len() && (#[trigger] before[a]).server_id
                                        == items[k];
                                assert(r@[a].server_id == items[k]);
                            } else {
                                assert(r@[before.len() as int].server_id == items[k]);
                            }
                        }
                    }
                }
            }
        }
        assert forall|id: LanguageServerId| #[trigger]
            is_watching(*self, worktree_id, id) implies has_verdict(r@, id) by {
            assert(ids@.contains(id));
            assert(has_key(items, id));
        }
        r
    }

    /// Tells the servers of a worktree of the changes of the paths that they watch.
    pub fn update_local_worktree_language_servers(
        &self,
        worktree: &Worktree,
        changes: &Vec<UpdatedEntry>,
        out: &mut Vec<Effect>,
    )
        ensures
            final(out)@.take(old(out)@.len() as int) == old(out)@,
            exists|verdicts: Seq<Verdicts>| #[trigger]
                lists_watchers(verdicts, *self, worktree.id, changes@) && tells_all(
                    final(out)@,
                    old(out)@.len() as int,
                    verdicts.filter_map(news_for(worktree.abs_path@, changes@)),
                ),
    {
        let verdicts = self.watch_verdicts(worktree.id, changes);
        notify_watchers(&worktree.abs_path, changes, &verdicts, out);
        assert(lists_watchers(verdicts@, *self, worktree.id, changes@));
    }
}

/// A glob speaks of a directory if it begins with its path and a separator; what follows is the glob
/// as seen from there. A relative glob speaks of its own base, and is seen from there as it is.
pub proof fn globs_are_seen_from_their_directory(abs_path: Seq<char>, glob: GlobPattern)
    ensures
        glob is Text && relative_glob(abs_path, glob) is Some ==> abs_path + seq!['/']
            + relative_glob(abs_path, glob)->0 == glob->Text_0@,
        glob is Text && relative_glob(abs_path, glob) is None ==> !abs_path.push('/').is_prefix_of(
            glob->Text_0@,
        ),
        glob is Relative ==> {
            &&& relative_glob(abs_path, glob) is Some <==> glob->base is Some && glob->base->0@
                == abs_path
            &&& relative_glob(abs_path, glob) is Some ==> relative_glob(abs_path, glob)->0
                == glob->pattern@
        },
{
    if glob is Text && relative_glob(abs_path, glob) is Some {
        let text = glob->Text_0@;
        let head = abs_path.push('/');
        assert forall|i: int| 0 <= i < head.len() implies head[i] == text[i] by {
            assert(text.subrange(0, head.len() as int)[i] == text[i]);
        }
        assert(abs_path + seq!['/'] + text.skip(abs_path.len() as int + 1) =~= text);
    }
}

/// A glob is watched for in a live worktree that it speaks of, and in one whenever it speaks of one.
pub proof fn globs_are_placed_in_their_worktree(project: Project, cx: AppContext, glob: GlobPattern)
    ensures
        ({
            let placed = placement(project, cx)(glob);
            let hs = project.worktrees@;
            &&& placed is Some ==> exists|i: int|
                0 <= i < hs.len() && ((#[trigger] hs[i]).live(cx) matches Some(w)
                    && placed->0.worktree == w.entity_id && placed->0.worktree_id == w.id && Some(
                    placed->0.pattern,
                ) == relative_glob(path_text(w.abs_path@), glob))
            &&& placed is None ==> forall|i: int|
                0 <= i < hs.len() ==> !((#[trigger] hs[i]).live(cx) matches Some(w)
                    && relative_glob(path_text(w.abs_path@), glob) is Some)
        }),
{
    let hs = project.worktrees@;
    let f = placed_in(cx, glob);
    crate::seqs::lemma_find_map_exact(hs, f);
    if find_map(hs, f) is Some {
        let i = crate::seqs::lemma_find_map_witness(hs, f);
        assert(hs[i].live(cx) is Some);
    }
}

/// The patterns of a worktree are those that were placed there and could be parsed, and no others.
pub proof fn patterns_belong_to_their_worktree(
    placed: Seq<PlacedView>,
    parses: Seq<bool>,
    n: int,
    id: WorktreeId,
    pattern: Seq<char>,
)
    requires
        n <= placed.len(),
        n <= parses.len(),
    ensures
        patterns_for(placed, parses, n, id).contains(pattern) <==> exists|k: int|
            0 <= k < n && (#[trigger] placed[k]).worktree_id == id && placed[k].pattern == pattern
                && parses[k],
    decreases n,
{
    if n > 0 {
        patterns_belong_to_their_worktree(placed, parses, n - 1, id, pattern);
        let head = patterns_for(placed, parses, n - 1, id);
        let all = patterns_for(placed, parses, n, id);
        if head.contains(pattern) {
            let i = choose|i: int| 0 <= i < head.len() && head[i] == pattern;
            assert(all[i] == pattern);
            let k = choose|k: int|
                0 <= k < n - 1 && (#[trigger] placed[k]).worktree_id == id && placed[k].pattern
                    == pattern && parses[k];
            assert(placed[k].worktree_id == id);
        }
        if placed[n - 1].worktree_id == id && parses[n - 1] && placed[n - 1].pattern == pattern {
            assert(all[head.len() as int] == pattern);
        }
        if all.contains(pattern) && !head.contains(pattern) {
            let i = choose|i: int| 0 <= i < all.len() && all[i] == pattern;
            if i < head.len() {
                assert(head[i] == pattern);
            }
            assert(placed[n - 1].pattern == pattern);
        }
    }
}

/// A file that came is told as created, one that went as deleted, and one that changed, or may have,
/// as changed. That an entry was loaded is not told.
pub proof fn changes_are_told_by_their_kind(change: PathChange)
    ensures
        change is Added ==> change_type(change) == Some(FileChangeType::Created),
        change is Removed ==> change_type(change) == Some(FileChangeType::Deleted),
        change is Updated || change is AddedOrUpdated ==> change_type(change) == Some(
            FileChangeType::Changed,
        ),
        change is Loaded ==> change_type(change) is None,
{
}

/// A server is told of a change exactly if it watches its path and the change is news: with the
/// absolute path, in the order of the changes.
pub proof fn watched_changes_are_told(
    abs_path: Seq<crate::path::Part>,
    changes: Seq<UpdatedEntry>,
    matches: Seq<bool>,
    n: int,
    i: int,
)
    requires
        0 <= i < n <= changes.len(),
        n <= matches.len(),
    ensures
        matches[i] && !(changes[i].change is Loaded) ==> exists|k: int|
            0 <= k < events_for(abs_path, changes, matches, n).len() && (#[trigger] events_for(
                abs_path,
                changes,
                matches,
                n,
            )[k]).path == joined(abs_path, changes[i].path@) && events_for(
                abs_path,
                changes,
                matches,
                n,
            )[k].typ == change_type(changes[i].change)->0,
    decreases n,
{
    let head = events_for(abs_path, changes, matches, n - 1);
    let all = events_for(abs_path, changes, matches, n);
    if matches[i] && !(changes[i].change is Loaded) {
        if i < n - 1 {
            watched_changes_are_told(abs_path, changes, matches, n - 1, i);
            let k = choose|k: int|
                0 <= k < head.len() && (#[trigger] head[k]).path == joined(
                    abs_path,
                    changes[i].path@,
                ) && head[k].typ == change_type(changes[i].change)->0;
            assert(all[k] == head[k]);
        } else {
            assert(all[head.len() as int].path == joined(abs_path, changes[i].path@));
        }
    }
}

/// Nothing else is told.
pub proof fn only_watched_changes_are_told(
    abs_path: Seq<crate::path::Part>,
    changes: Seq<UpdatedEntry>,
    matches: Seq<bool>,
    n: int,
    k: int,
) -> (i: int)
    requires
        n <= changes.len(),
        n <= matches.len(),
        0 <= k < events_for(abs_path, changes, matches, n).len(),
    ensures
        0 <= i < n,
        matches[i],
        !(changes[i].change is Loaded),
        events_for(abs_path, changes, matches, n)[k].path == joined(abs_path, changes[i].path@),
        Some(events_for(abs_path, changes, matches, n)[k].typ) == change_type(changes[i].change),
    decreases n,
{
    let head = events_for(abs_path, changes, matches, n - 1);
    let all = events_for(abs_path, changes, matches, n);
    if k < head.len() {
        assert(all[k] == head[k]);
        only_watched_changes_are_told(abs_path, changes, matches, n - 1, k)
    } else {
        n - 1
    }
}

/// A server hears of changes exactly if there are some for it, and hears of all of them.
pub proof fn servers_hear_only_news(
    abs_path: Seq<crate::path::Part>,
    changes: Seq<UpdatedEntry>,
    v: Verdicts,
)
    ensures
        ({
            let events = events_for(abs_path, changes, v.matches@, changes.len() as int);
            let news = news_for(abs_path, changes)(v);
            &&& news is Some <==> events.len() > 0
            &&& news is Some ==> news->0 == (v.server_id, events)
        }),
{
}

/// What a server watches in a worktree is what it has registered while it runs.
pub proof fn running_servers_watch(project: Project, worktree_id: WorktreeId, id: LanguageServerId)
    ensures
        ({
            let servers = project.language_servers@;
            let set = watched_set(project, worktree_id, id);
            let runs = servers.contains_key(id) && servers[id] is Running;
            &&& set is Some <==> runs && servers[id]->watched_paths@.contains_key(worktree_id)
            &&& set is Some ==> set->0 == servers[id]->watched_paths@[worktree_id]
        }),
{
}

/// Each server that works on a worktree and watches files of it is told of the changes that it
/// watches, if there are any: in one notification that has all of them.
pub proof fn every_watching_server_is_told(
    verdicts: Seq<Verdicts>,
    project: Project,
    worktree: Worktree,
    changes: Seq<UpdatedEntry>,
    n: int,
    out: Seq<Effect>,
    id: LanguageServerId,
)
    requires
        0 <= n,
        lists_watchers(verdicts, project, worktree.id, changes),
        tells_all(out, n, verdicts.filter_map(news_for(worktree.abs_path@, changes))),
        is_watching(project, worktree.id, id),
    ensures
        exists|v: int|
            0 <= v < verdicts.len() && (#[trigger] verdicts[v]).server_id == id && (events_for(
                worktree.abs_path@,
                changes,
                verdicts[v].matches@,
                changes.len() as int,
            ).len() > 0 ==> exists|k: int|
                n <= k < out.len() && is_news(
                    #[trigger] out[k],
                    id,
                    events_for(
                        worktree.abs_path@,
                        changes,
                        verdicts[v].matches@,
                        changes.len() as int,
                    ),
                )),
{
    assert(has_verdict(verdicts, id));
    let v = choose|v: int| 0 <= v < verdicts.len() && (#[trigger] verdicts[v]).server_id == id;
    let f = news_for(worktree.abs_path@, changes);
    let news = verdicts.filter_map(f);
    let events = events_for(
        worktree.abs_path@,
        changes,
        verdicts[v].matches@,
        changes.len() as int,
    );
    if events.len() > 0 {
        crate::seqs::lemma_filter_map_has(verdicts, f, v);
        let e = f(verdicts[v])->0;
        let k = choose|k: int| 0 <= k < news.len() && news[k] == e;
        assert(tells(out[n + k], news[k]));
        assert(is_news(out[n + k], id, events));
    }
}

/// The effect notifies a server of the file events.
pub open spec fn is_news(effect: Effect, id: LanguageServerId, events: Seq<FileEventView>) -> bool {
    effect matches Effect::NotifyServer(server_id, notification) && server_id == id && (
    notification matches ServerNotification::DidChangeWatchedFiles { changes } && changes@.len()
        == events.len() && forall|i: int|
        0 <= i < events.len() ==> (#[trigger] changes@[i]).path@ == events[i].path && changes@[i].typ
            == events[i].typ)
}

/// Only servers that work on the worktree and watch files of it are told, and only of what they watch.
pub proof fn only_watching_servers_are_told(
    verdicts: Seq<Verdicts>,
    project: Project,
    worktree: Worktree,
    changes: Seq<UpdatedEntry>,
    n: int,
    out: Seq<Effect>,
    k: int,
)
    requires
        0 <= n,
        lists_watchers(verdicts, project, worktree.id, changes),
        tells_all(out, n, verdicts.filter_map(news_for(worktree.abs_path@, changes))),
        n <= k < out.len(),
    ensures
        out[k] is NotifyServer,
        works_on(project.language_server_ids@, out[k]->NotifyServer_0, worktree.id),
        watched_set(project, worktree.id, out[k]->NotifyServer_0) is Some,
{
    let f = news_for(worktree.abs_path@, changes);
    let news = verdicts.filter_map(f);
    let v = crate::seqs::lemma_filter_map_from(verdicts, f, k - n);
    assert(tells(out[n + (k - n)], news[k - n]));
    assert(is_watching(project, worktree.id, verdicts[v].server_id));
}

/// A running server that registers what it watches stays otherwise as it is, and so do all others. For
/// each glob that speaks of a worktree, that worktree is scanned where the glob begins.
pub proof fn watching_changes_nothing_else(
    before: Project,
    after: Project,
    cx: AppContext,
    id: LanguageServerId,
    watchers: Seq<GlobPattern>,
    told: Seq<Effect>,
    out: Seq<Effect>,
    i: int,
)
    requires
        watchers_replaced(before, after, cx, id, watchers, told, out),
    ensures
        !is_running(before, id) ==> after.language_servers@ == before.language_servers@ && out
            == told,
        is_running(before, id) ==> {
            let servers = before.language_servers@;
            let now = after.language_servers@;
            let placed = watchers.filter_map(placement(before, cx));
            &&& now.contains_key(id)
            &&& now[id] is Running
            &&& now[id]->server == servers[id]->server
            &&& now[id]->adapter == servers[id]->adapter
            &&& now[id]->language == servers[id]->language
            &&& out.take(told.len() as int) == told
            &&& 0 <= i < placed.len() ==> (out[told.len() + i] matches Effect::ScanPathPrefix {
                worktree,
                prefix,
            } && worktree == placed[i].worktree && prefix@ == literal_prefix(placed[i].pattern))
            &&& out.last() == Effect::Notify
        },
{
    if is_running(before, id) {
        let placed = watchers.filter_map(placement(before, cx));
        let n = told.len() as int;
        let was = before.language_servers@[id];
        let now = after.language_servers@[id];
        let parses = choose|parses: Seq<bool>| #[trigger]
            judged(parses, placed) && rewatched(was, now, placed, parses);
        assert(rewatched(was, now, placed, parses));
        if 0 <= i < placed.len() {
            assert(scans(out[n + i], placed[i]));
        }
    }
}

} // verus!
