//! The files of a worktree among which one is picked by a part of its path.

use crate::model::{Entry, Worktree};
use crate::path::Path;
use crate::seqs::{lemma_filter_map_step, lemma_take_all};
use std::sync::Arc;
use vstd::prelude::*;

verus! {

/// The files of a worktree that can be picked.
#[derive(Debug)]
pub struct PathMatchCandidateSet {
    pub snapshot: Arc<Worktree>,
    pub include_ignored: bool,
    pub include_root_name: bool,
}

/// The path of an entry that can be picked.
pub open spec fn pickable(include_ignored: bool) -> spec_fn(Entry) -> Option<Path> {
    |e: Entry|
        if e.is_file && (include_ignored || !e.is_ignored) {
            Some(e.path)
        } else {
            None
        }
}

/// The files of a worktree that are still to come.
#[derive(Debug)]
pub struct PathMatchCandidateSetIter<'a> {
    snapshot: &'a Worktree,
    include_ignored: bool,
    /// The entry to go on with.
    next: usize,
}

impl<'a> View for PathMatchCandidateSetIter<'a> {
    type V = Seq<Path>;

    closed spec fn view(&self) -> Seq<Path> {
        self.snapshot.entries@.skip(self.next as int).filter_map(pickable(self.include_ignored))
    }
}

proof fn lemma_skip_step(s: Seq<Entry>, f: spec_fn(Entry) -> Option<Path>, i: int)
    requires
        0 <= i < s.len(),
    ensures
        s.skip(i).filter_map(f) == (match f(s[i]) {
            Some(p) => seq![p] + s.skip(i + 1).filter_map(f),
            None => s.skip(i + 1).filter_map(f),
        }),
    decreases s.len(),
{
    let t = s.skip(i);
    if i + 1 == s.len() {
        lemma_take_all(t);
        lemma_filter_map_step(t, f, 0);
        assert(s.skip(i + 1) =~= Seq::empty());
        if let Some(p) = f(s[i]) {
            assert(Seq::<Path>::empty().push(p) =~= seq![p] + Seq::<Path>::empty());
        }
    } else {
        let n = t.len() - 1;
        lemma_skip_step(s.drop_last(), f, i);
        lemma_take_all(t);
        lemma_filter_map_step(t, f, n);
        assert(t.take(n) =~= s.drop_last().skip(i));
        let u = s.skip(i + 1);
        lemma_take_all(u);
        lemma_filter_map_step(u, f, n - 1);
        assert(u.take(n - 1) =~= s.drop_last().skip(i + 1));
        let rest = s.drop_last().skip(i + 1).filter_map(f);
        if let (Some(p), Some(q)) = (f(s[i]), f(s.last())) {
            assert((seq![p] + rest).push(q) =~= seq![p] + rest.push(q));
        }
    }
}

impl<'a> PathMatchCandidateSetIter<'a> {
    pub closed spec fn is_valid(self) -> bool {
        self.next <= self.snapshot.entries@.len()
    }

    /// The next file.
    pub fn next(&mut self) -> (r: Option<&'a Path>)
        requires
            old(self).is_valid(),
        ensures
            final(self).is_valid(),
            match r {
                Some(path) => old(self)@ == seq![*path] + final(self)@,
                None => old(self)@.len() == 0 && final(self)@.len() == 0,
            },
    {
        let ghost f = pickable(self.include_ignored);
        let ghost s = self.snapshot.entries@;
        while self.next < self.snapshot.entries.len()
            invariant
                self.is_valid(),
                f == pickable(self.include_ignored),
                s == self.snapshot.entries@,
                self@ == old(self)@,
            decreases s.len() - self.next,
        {
            let e = &self.snapshot.entries[self.next];
            proof {
                lemma_skip_step(s, f, self.next as int);
            }
            self.next = self.next + 1;
            if e.is_file && (self.include_ignored || !e.is_ignored) {
                return Some(&e.path);
            }
        }
        assert(s.skip(s.len() as int) =~= Seq::empty());
        None
    }
}

impl PathMatchCandidateSet {
    /// The files that can be picked.
    pub open spec fn files(self) -> Seq<Path> {
        self.snapshot.entries@.filter_map(pickable(self.include_ignored))
    }

    pub fn id(&self) -> (r: usize)
        ensures
            r == self.snapshot.id.0,
    {
        self.snapshot.id.to_usize()
    }

    /// How many files can be picked.
    pub fn len(&self) -> (r: usize)
        ensures
            r == self.files().len(),
    {
        let mut n: usize = 0;
        let ghost s = self.snapshot.entries@;
        let ghost f = pickable(self.include_ignored);
        proof {
            lemma_take_all(s);
        }
        for i in 0..self.snapshot.entries.len()
            invariant
                s == self.snapshot.entries@,
                f == pickable(self.include_ignored),
                n == s.take(i as int).filter_map(f).len(),
                n <= i,
        {
            proof {
                lemma_filter_map_step(s, f, i as int);
            }
            let e = &self.snapshot.entries[i];
            if e.is_file && (self.include_ignored || !e.is_ignored) {
                n = n + 1;
            }
        }
        n
    }

    /// What comes before the paths where they are shown: the name of the worktree's root, where the
    /// root is a file, or where it is asked for.
    pub fn prefix(&self) -> (r: String)
        ensures
            r@ == (if self.snapshot.entry_of_path(Seq::empty()) matches Some(e) && e.is_file {
                self.snapshot.root_name@
            } else if self.include_root_name {
                self.snapshot.root_name@.push('/')
            } else {
                Seq::empty()
            }),
    {
        let root_is_file = match self.snapshot.entry_for_path(&Path::empty()) {
            Some(e) => e.is_file,
            None => false,
        };
        if root_is_file {
            self.snapshot.root_name.clone()
        } else if self.include_root_name {
            let mut prefix = self.snapshot.root_name.clone();
            prefix.append("/");
            proof {
                reveal_strlit("/");
                assert(prefix@ =~= self.snapshot.root_name@.push('/'));
            }
            prefix
        } else {
            proof {
                reveal_strlit("");
            }
            let prefix = String::new();
            assert(prefix@ =~= Seq::empty());
            prefix
        }
    }

    /// The files that can be picked, without the first `start`.
    pub fn candidates(&self, start: usize) -> (r: PathMatchCandidateSetIter<'_>)
        ensures
            r.is_valid(),
            r@ == self.files().skip(
                if start <= self.files().len() {
                    start as int
                } else {
                    self.files().len() as int
                },
            ),
    {
        let mut iter = PathMatchCandidateSetIter {
            snapshot: &self.snapshot,
            include_ignored: self.include_ignored,
            next: 0,
        };
        let ghost all = self.files();
        let mut i: usize = 0;
        assert(self.snapshot.entries@.skip(0) =~= self.snapshot.entries@);
        assert(all.skip(0) =~= all);
        while i < start
            invariant_except_break
                i <= start,
                i <= all.len(),
                iter.is_valid(),
                iter@ == all.skip(i as int),
            ensures
                iter.is_valid(),
                iter@ == all.skip(
                    if start <= all.len() {
                        start as int
                    } else {
                        all.len() as int
                    },
                ),
            decreases start - i,
        {
            let ghost before = iter@;
            match iter.next() {
                Some(path) => {
                    assert(iter@ =~= before.skip(1));
                    assert(all.skip(i as int).skip(1) =~= all.skip(i + 1));
                    i = i + 1;
                },
                None => {
                    assert(iter@ =~= all.skip(all.len() as int));
                    break;
                },
            }
        }
        iter
    }
}

/// A file of the worktree can be picked exactly if it is not ignored, or ignored files are wanted.
/// Directories cannot. The files come in the order of the worktree.
pub proof fn files_can_be_picked(set: PathMatchCandidateSet)
    ensures
        ({
            let kept = set.snapshot.entries@.filter(
                |e: Entry| e.is_file && (set.include_ignored || !e.is_ignored),
            );
            &&& set.files().len() == kept.len()
            &&& forall|k: int|
                0 <= k < kept.len() ==> #[trigger] set.files()[k] == kept[k].path
        }),
{
    let p = |e: Entry| e.is_file && (set.include_ignored || !e.is_ignored);
    let f = pickable(set.include_ignored);
    crate::seqs::lemma_filter_map_matches(set.snapshot.entries@, f, p);
    assert forall|k: int|
        0 <= k < set.snapshot.entries@.filter(p).len() implies #[trigger] set.files()[k]
        == set.snapshot.entries@.filter(p)[k].path by {
        assert(f(set.snapshot.entries@.filter(p)[k]) == Some(set.files()[k]));
    }
}

} // verus!
