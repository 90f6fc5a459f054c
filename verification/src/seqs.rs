//! Searching through sequences.

use vstd::prelude::*;

verus! {

/// The first result that `f` gives on a sequence.
pub open spec fn find_map<T, U>(s: Seq<T>, f: spec_fn(T) -> Option<U>) -> Option<U>
    decreases s.len(),
{
    if s.len() == 0 {
        None
    } else {
        match f(s[0]) {
            Some(u) => Some(u),
            None => find_map(s.skip(1), f),
        }
    }
}

pub proof fn lemma_find_map_found<T, U>(s: Seq<T>, f: spec_fn(T) -> Option<U>, i: int)
    requires
        0 <= i < s.len(),
        f(s[i]) is Some,
        forall|j: int| 0 <= j < i ==> f(#[trigger] s[j]) is None,
    ensures
        find_map(s, f) == f(s[i]),
    decreases s.len(),
{
    if i > 0 {
        assert(f(s[0]) is None);
        assert forall|j: int| 0 <= j < i - 1 implies f(#[trigger] s.skip(1)[j]) is None by {
            assert(s.skip(1)[j] == s[j + 1]);
        }
        lemma_find_map_found(s.skip(1), f, i - 1);
    }
}

pub proof fn lemma_find_map_none<T, U>(s: Seq<T>, f: spec_fn(T) -> Option<U>)
    requires
        forall|j: int| 0 <= j < s.len() ==> f(#[trigger] s[j]) is None,
    ensures
        find_map(s, f) is None,
    decreases s.len(),
{
    if s.len() > 0 {
        assert(f(s[0]) is None);
        assert forall|j: int| 0 <= j < s.skip(1).len() implies f(#[trigger] s.skip(1)[j]) is None by {
            assert(s.skip(1)[j] == s[j + 1]);
        }
        lemma_find_map_none(s.skip(1), f);
    }
}

/// Where some item gives something, something is found.
pub proof fn lemma_find_map_some<T, U>(s: Seq<T>, f: spec_fn(T) -> Option<U>, i: int)
    requires
        0 <= i < s.len(),
        f(s[i]) is Some,
    ensures
        find_map(s, f) is Some,
    decreases s.len(),
{
    if i > 0 {
        assert(s.skip(1)[i - 1] == s[i]);
        lemma_find_map_some(s.skip(1), f, i - 1);
    }
}

/// What is found was given by some item, and by none before it.
pub proof fn lemma_find_map_witness<T, U>(s: Seq<T>, f: spec_fn(T) -> Option<U>) -> (i: int)
    requires
        find_map(s, f) is Some,
    ensures
        0 <= i < s.len(),
        f(s[i]) == find_map(s, f),
        forall|j: int| 0 <= j < i ==> f(#[trigger] s[j]) is None,
    decreases s.len(),
{
    if f(s[0]) is Some {
        0
    } else {
        let i = lemma_find_map_witness(s.skip(1), f);
        assert forall|j: int| 0 <= j < i + 1 implies f(#[trigger] s[j]) is None by {
            if j > 0 {
                assert(s.skip(1)[j - 1] == s[j]);
            }
        }
        i + 1
    }
}

pub proof fn lemma_filter_map_step<T, U>(s: Seq<T>, f: spec_fn(T) -> Option<U>, i: int)
    requires
        0 <= i < s.len(),
    ensures
        s.take(i + 1).filter_map(f) == (match f(s[i]) {
            Some(u) => s.take(i).filter_map(f).push(u),
            None => s.take(i).filter_map(f),
        }),
{
    s.lemma_filter_map_take_succ(f, i);
    if let Some(u) = f(s[i]) {
        assert(s.take(i).filter_map(f) + seq![u] =~= s.take(i).filter_map(f).push(u));
    } else {
        assert(s.take(i).filter_map(f) + Seq::<U>::empty() =~= s.take(i).filter_map(f));
    }
}

pub proof fn lemma_filter_map_has<T, U>(s: Seq<T>, f: spec_fn(T) -> Option<U>, i: int)
    requires
        0 <= i < s.len(),
        f(s[i]) is Some,
    ensures
        s.filter_map(f).contains(f(s[i])->0),
    decreases s.len(),
{
    let t = s.drop_last();
    if i == s.len() - 1 {
        assert((t.filter_map(f) + seq![f(s[i])->0]).last() == f(s[i])->0);
    } else {
        lemma_filter_map_has(t, f, i);
        let k = choose|k: int| 0 <= k < t.filter_map(f).len() && t.filter_map(f)[k] == f(s[i])->0;
        assert(s.filter_map(f)[k] == t.filter_map(f)[k]);
    }
}

pub proof fn lemma_contains_step<T>(s: Seq<T>, i: int, x: T)
    requires
        0 <= i < s.len(),
    ensures
        s.take(i + 1).contains(x) == (s.take(i).contains(x) || x == s[i]),
{
    let t = s.take(i + 1);
    let u = s.take(i);
    if t.contains(x) {
        let k = choose|k: int| 0 <= k < t.len() && t[k] == x;
        if k < i {
            assert(u[k] == x);
        }
    }
    if u.contains(x) {
        let k = choose|k: int| 0 <= k < u.len() && u[k] == x;
        assert(t[k] == x);
    }
    assert(t[i] == s[i]);
}

pub proof fn lemma_take_all<T>(s: Seq<T>)
    ensures
        s.take(s.len() as int) == s,
        s.take(0) == Seq::<T>::empty(),
{
    assert(s.take(s.len() as int) =~= s);
    assert(s.take(0) =~= Seq::<T>::empty());
}

/// What is mapped was mapped from an item at some place.
pub proof fn lemma_filter_map_from<T, U>(s: Seq<T>, f: spec_fn(T) -> Option<U>, k: int) -> (i: int)
    requires
        0 <= k < s.filter_map(f).len(),
    ensures
        0 <= i < s.len(),
        f(s[i]) == Some(s.filter_map(f)[k]),
{
    let u = s.filter_map(f)[k];
    assert(s.filter_map(f).contains(u));
    s.lemma_filter_map_contains(f, u);
    let t = choose|t: T| #[trigger] s.contains(t) && f(t) == Some(u);
    choose|i: int| 0 <= i < s.len() && s[i] == t
}

/// Where every item is mapped to something, the results correspond to the items one by one.
pub proof fn lemma_filter_map_all<T, U>(s: Seq<T>, f: spec_fn(T) -> Option<U>)
    requires
        forall|i: int| 0 <= i < s.len() ==> f(#[trigger] s[i]) is Some,
    ensures
        s.filter_map(f).len() == s.len(),
        forall|i: int| 0 <= i < s.len() ==> Some(#[trigger] s.filter_map(f)[i]) == f(s[i]),
    decreases s.len(),
{
    lemma_take_all(s);
    if s.len() > 0 {
        let n = s.len() - 1;
        let head = s.take(n);
        assert forall|i: int| 0 <= i < head.len() implies f(#[trigger] head[i]) is Some by {
            assert(head[i] == s[i]);
        }
        lemma_filter_map_all(head, f);
        lemma_filter_map_step(s, f, n);
        assert(f(s[n]) is Some);
        assert forall|i: int| 0 <= i < s.len() implies Some(#[trigger] s.filter_map(f)[i]) == f(
            s[i],
        ) by {
            if i < n {
                assert(s.filter_map(f)[i] == head.filter_map(f)[i]);
                assert(head[i] == s[i]);
            }
        }
    }
}

/// What is mapped corresponds, one by one and in order, to the items that are mapped to something.
pub proof fn lemma_filter_map_matches<T, U>(
    s: Seq<T>,
    f: spec_fn(T) -> Option<U>,
    p: spec_fn(T) -> bool,
)
    requires
        forall|i: int| 0 <= i < s.len() ==> p(#[trigger] s[i]) == (f(s[i]) is Some),
    ensures
        s.filter_map(f).len() == s.filter(p).len(),
        forall|k: int|
            0 <= k < s.filter(p).len() ==> f(#[trigger] s.filter(p)[k]) == Some(s.filter_map(f)[k]),
        forall|k: int|
            0 <= k < s.filter(p).len() ==> f(s.filter(p)[k]) == Some(#[trigger] s.filter_map(f)[k]),
    decreases s.len(),
{
    reveal(Seq::filter);
    lemma_take_all(s);
    if s.len() > 0 {
        let n = s.len() - 1;
        let head = s.drop_last();
        assert(head =~= s.take(n));
        assert forall|i: int| 0 <= i < head.len() implies p(#[trigger] head[i]) == (f(
            head[i],
        ) is Some) by {
            assert(head[i] == s[i]);
        }
        lemma_filter_map_matches(head, f, p);
        lemma_filter_map_step(s, f, n);
        assert(p(s[n]) == (f(s[n]) is Some));
        assert forall|k: int| 0 <= k < s.filter(p).len() implies f(#[trigger] s.filter(p)[k])
            == Some(s.filter_map(f)[k]) by {
            if k < head.filter(p).len() {
                assert(head.filter(p)[k] == s.filter(p)[k]);
                assert(head.filter_map(f)[k] == s.filter_map(f)[k]);
            }
        }
    }
}

/// A search finds something exactly if some item gives something.
pub proof fn lemma_find_map_exact<T, U>(s: Seq<T>, f: spec_fn(T) -> Option<U>)
    ensures
        find_map(s, f) is Some ==> exists|i: int|
            0 <= i < s.len() && f(#[trigger] s[i]) == find_map(s, f),
        find_map(s, f) is None ==> forall|i: int|
            0 <= i < s.len() ==> f(#[trigger] s[i]) is None,
{
    if find_map(s, f) is Some {
        let i = lemma_find_map_witness(s, f);
        assert(f(s[i]) == find_map(s, f));
    } else {
        assert forall|i: int| 0 <= i < s.len() implies f(#[trigger] s[i]) is None by {
            if f(s[i]) is Some {
                lemma_find_map_some(s, f, i);
            }
        }
    }
}

} // verus!
