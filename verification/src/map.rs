//! Maps and sets that keep their keys in order.

use crate::order::{Key, Order};
use vstd::prelude::*;

verus! {

/// The keys stand in strictly increasing order.
pub open spec fn sorted<K: Key, V>(s: Seq<(K, V)>) -> bool {
    forall|i: int, j: int|
        #![trigger s[i], s[j]]
        0 <= i < j < s.len() ==> K::before(s[i].0.key(), s[j].0.key())
}

/// The entry at `i` has the key `k`.
pub open spec fn key_at<K: Key, V>(s: Seq<(K, V)>, k: K::S, i: int) -> bool {
    0 <= i < s.len() && s[i].0.key() == k
}

/// The map that a sequence of entries stands for.
pub open spec fn entries_map<K: Key, V>(s: Seq<(K, V)>) -> Map<K::S, V> {
    Map::new(
        |k: K::S| exists|i: int| key_at(s, k, i),
        |k: K::S| s[choose|i: int| key_at(s, k, i)].1,
    )
}

/// In an ordered sequence of entries no key occurs twice.
pub proof fn lemma_key_unique<K: Key, V>(s: Seq<(K, V)>, k: K::S, i: int, j: int)
    requires
        sorted(s),
        key_at(s, k, i),
        key_at(s, k, j),
    ensures
        i == j,
{
    K::before_irreflexive(k);
    if i < j {
        assert(K::before(s[i].0.key(), s[j].0.key()));
    } else if j < i {
        assert(K::before(s[j].0.key(), s[i].0.key()));
    }
}

/// Each entry of an ordered sequence is what its key stands for in the map.
pub proof fn lemma_entry<K: Key, V>(s: Seq<(K, V)>, i: int)
    requires
        sorted(s),
        0 <= i < s.len(),
    ensures
        entries_map(s).contains_key(s[i].0.key()),
        entries_map(s)[s[i].0.key()] == s[i].1,
{
    let k = s[i].0.key();
    assert(key_at(s, k, i));
    let j = choose|j: int| key_at(s, k, j);
    lemma_key_unique(s, k, i, j);
}

/// Each key of the map has an entry.
pub proof fn lemma_has_entry<K: Key, V>(s: Seq<(K, V)>, k: K::S) -> (i: int)
    requires
        sorted(s),
        entries_map(s).contains_key(k),
    ensures
        key_at(s, k, i),
        entries_map(s)[k] == s[i].1,
{
    let i = choose|i: int| key_at(s, k, i);
    lemma_entry(s, i);
    i
}

/// Replacing every value by its image under `f` replaces the values of the map.
pub proof fn lemma_mapped<K: Key, V>(s: Seq<(K, V)>, t: Seq<(K, V)>, f: spec_fn(V) -> V)
    requires
        sorted(s),
        t.len() == s.len(),
        forall|i: int| 0 <= i < s.len() ==> #[trigger] t[i] == (s[i].0, f(s[i].1)),
    ensures
        sorted(t),
        entries_map(t) == entries_map(s).map_values(f),
{
    assert forall|a: int, b: int|
        #![trigger t[a], t[b]]
        0 <= a < b < t.len() implies K::before(t[a].0.key(), t[b].0.key()) by {
        assert(K::before(s[a].0.key(), s[b].0.key()));
    }
    assert forall|q: K::S| entries_map(t).contains_key(q) == #[trigger] entries_map(s).map_values(
        f,
    ).contains_key(q) by {
        if entries_map(t).contains_key(q) {
            let j = choose|j: int| key_at(t, q, j);
            assert(key_at(s, q, j));
        }
        if entries_map(s).contains_key(q) {
            let j = choose|j: int| key_at(s, q, j);
            assert(key_at(t, q, j));
        }
    }
    assert forall|q: K::S| #[trigger] entries_map(t).contains_key(q) implies entries_map(t)[q]
        == entries_map(s).map_values(f)[q] by {
        let j = choose|j: int| key_at(t, q, j);
        lemma_entry(t, j);
        lemma_entry(s, j);
    }
    assert(entries_map(t) =~= entries_map(s).map_values(f));
}

proof fn lemma_insert<K: Key, V>(s: Seq<(K, V)>, i: int, k: K, v: V)
    requires
        sorted(s),
        0 <= i <= s.len(),
        forall|j: int| 0 <= j < i ==> K::before(#[trigger] s[j].0.key(), k.key()),
        forall|j: int| i <= j < s.len() ==> K::before(k.key(), #[trigger] s[j].0.key()),
    ensures
        sorted(s.insert(i, (k, v))),
        entries_map(s.insert(i, (k, v))) == entries_map(s).insert(k.key(), v),
        !entries_map(s).contains_key(k.key()),
{
    let t = s.insert(i, (k, v));
    assert forall|a: int, b: int|
        #![trigger t[a], t[b]]
        0 <= a < b < t.len() implies K::before(t[a].0.key(), t[b].0.key()) by {
        let x = if a < i { a } else { a - 1 };
        let y = if b < i { b } else { b - 1 };
        if a != i && b != i {
            assert(t[a] == s[x] && t[b] == s[y]);
        } else if a == i {
            assert(t[b] == s[y]);
        } else {
            assert(t[a] == s[x]);
        }
    }
    if entries_map(s).contains_key(k.key()) {
        let j = choose|j: int| key_at(s, k.key(), j);
        K::before_irreflexive(k.key());
        assert(false);
    }
    assert forall|q: K::S| entries_map(t).contains_key(q) == #[trigger] entries_map(s).insert(
        k.key(),
        v,
    ).contains_key(q) by {
        if entries_map(t).contains_key(q) {
            let j = choose|j: int| key_at(t, q, j);
            if j < i {
                assert(key_at(s, q, j));
            } else if j > i {
                assert(key_at(s, q, j - 1));
            }
        }
        if q == k.key() {
            assert(key_at(t, q, i));
        } else if entries_map(s).contains_key(q) {
            let j = choose|j: int| key_at(s, q, j);
            assert(key_at(t, q, if j < i { j } else { j + 1 }));
        }
    }
    assert forall|q: K::S| #[trigger] entries_map(t).contains_key(q) implies entries_map(t)[q]
        == entries_map(s).insert(k.key(), v)[q] by {
        let j = choose|j: int| key_at(t, q, j);
        lemma_entry(t, j);
        if j < i {
            assert(key_at(s, q, j));
            lemma_entry(s, j);
        } else if j > i {
            assert(key_at(s, q, j - 1));
            lemma_entry(s, j - 1);
        }
    }
    assert(entries_map(t) =~= entries_map(s).insert(k.key(), v));
}

proof fn lemma_update<K: Key, V>(s: Seq<(K, V)>, i: int, v: V)
    requires
        sorted(s),
        0 <= i < s.len(),
    ensures
        sorted(s.update(i, (s[i].0, v))),
        entries_map(s.update(i, (s[i].0, v))) == entries_map(s).insert(s[i].0.key(), v),
{
    let t = s.update(i, (s[i].0, v));
    assert forall|a: int, b: int|
        #![trigger t[a], t[b]]
        0 <= a < b < t.len() implies K::before(t[a].0.key(), t[b].0.key()) by {
        assert(t[a].0 == s[a].0 && t[b].0 == s[b].0);
    }
    assert forall|q: K::S| entries_map(t).contains_key(q) == #[trigger] entries_map(s).insert(
        s[i].0.key(),
        v,
    ).contains_key(q) by {
        if entries_map(t).contains_key(q) {
            let j = choose|j: int| key_at(t, q, j);
            assert(key_at(s, q, j));
        }
        if q == s[i].0.key() {
            assert(key_at(t, q, i));
        } else if entries_map(s).contains_key(q) {
            let j = choose|j: int| key_at(s, q, j);
            assert(key_at(t, q, j));
        }
    }
    assert forall|q: K::S| #[trigger] entries_map(t).contains_key(q) implies entries_map(t)[q]
        == entries_map(s).insert(s[i].0.key(), v)[q] by {
        let j = choose|j: int| key_at(t, q, j);
        lemma_entry(t, j);
        lemma_entry(s, j);
        if q == s[i].0.key() {
            lemma_key_unique(t, q, i, j);
        }
    }
    assert(entries_map(t) =~= entries_map(s).insert(s[i].0.key(), v));
}

proof fn lemma_remove<K: Key, V>(s: Seq<(K, V)>, i: int)
    requires
        sorted(s),
        0 <= i < s.len(),
    ensures
        sorted(s.remove(i)),
        entries_map(s.remove(i)) == entries_map(s).remove(s[i].0.key()),
{
    let t = s.remove(i);
    let k = s[i].0.key();
    assert forall|a: int, b: int|
        #![trigger t[a], t[b]]
        0 <= a < b < t.len() implies K::before(t[a].0.key(), t[b].0.key()) by {
        let x = if a < i { a } else { a + 1 };
        let y = if b < i { b } else { b + 1 };
        assert(t[a] == s[x] && t[b] == s[y]);
    }
    assert forall|q: K::S| entries_map(t).contains_key(q) == #[trigger] entries_map(s).remove(
        k,
    ).contains_key(q) by {
        if entries_map(t).contains_key(q) {
            let j = choose|j: int| key_at(t, q, j);
            let l = if j < i { j } else { j + 1 };
            assert(key_at(s, q, l));
            if q == k {
                lemma_key_unique(s, q, l, i);
            }
        }
        if q != k && entries_map(s).contains_key(q) {
            let j = choose|j: int| key_at(s, q, j);
            assert(key_at(t, q, if j < i { j } else { j - 1 }));
        }
    }
    assert forall|q: K::S| #[trigger] entries_map(t).contains_key(q) implies entries_map(t)[q]
        == entries_map(s).remove(k)[q] by {
        let j = choose|j: int| key_at(t, q, j);
        let l = if j < i { j } else { j + 1 };
        assert(t[j] == s[l]);
        lemma_entry(t, j);
        lemma_entry(s, l);
        if q == k {
            lemma_key_unique(s, q, l, i);
        }
    }
    assert(entries_map(t) =~= entries_map(s).remove(k));
}

/// A map whose entries are kept in the order of their keys.
#[derive(Debug)]
pub struct SortedMap<K: Key, V> {
    entries: Vec<(K, V)>,
}

impl<K: Key, V> View for SortedMap<K, V> {
    type V = Map<K::S, V>;

    open spec fn view(&self) -> Map<K::S, V> {
        entries_map(self.entries())
    }
}

impl<K: Key, V> SortedMap<K, V> {
    /// The entries in the order of their keys.
    pub closed spec fn entries(self) -> Seq<(K, V)> {
        self.entries@
    }

    #[verifier::type_invariant]
    spec fn in_order(self) -> bool {
        sorted(self.entries@)
    }

    pub fn new() -> (r: Self)
        ensures
            r@ == Map::<K::S, V>::empty(),
            r.entries() == Seq::<(K, V)>::empty(),
    {
        let r = SortedMap { entries: Vec::new() };
        assert(r@ =~= Map::<K::S, V>::empty());
        r
    }

    /// How many entries there are. Every map holds its entries in order.
    pub fn len(&self) -> (r: usize)
        ensures
            r == self.entries().len(),
            sorted(self.entries()),
    {
        proof {
            use_type_invariant(self);
        }
        self.entries.len()
    }

    pub fn is_empty(&self) -> (r: bool)
        ensures
            r == (self.entries().len() == 0),
            r == (self@ == Map::<K::S, V>::empty()),
    {
        proof {
            use_type_invariant(self);
            if self.entries@.len() == 0 {
                assert(self@ =~= Map::<K::S, V>::empty());
            } else {
                lemma_entry(self.entries@, 0);
            }
        }
        self.entries.len() == 0
    }

    /// The key of the entry at `i`.
    pub fn key_of(&self, i: usize) -> (r: &K)
        requires
            i < self.entries().len(),
        ensures
            *r == self.entries()[i as int].0,
            self@.contains_key(r.key()),
            self@[r.key()] == self.entries()[i as int].1,
    {
        proof {
            use_type_invariant(self);
            lemma_entry(self.entries@, i as int);
        }
        &self.entries[i].0
    }

    /// The value of the entry at `i`.
    pub fn value_of(&self, i: usize) -> (r: &V)
        requires
            i < self.entries().len(),
        ensures
            *r == self.entries()[i as int].1,
    {
        &self.entries[i].1
    }

    /// The place of the first entry whose key is not before `k`, and whether it is `k`'s.
    fn position(&self, k: &K) -> (r: (usize, bool))
        ensures
            r.0 <= self.entries@.len(),
            forall|j: int| 0 <= j < r.0 ==> K::before(#[trigger] self.entries@[j].0.key(), k.key()),
            r.1 ==> key_at(self.entries@, k.key(), r.0 as int),
            !r.1 ==> forall|j: int|
                r.0 <= j < self.entries@.len() ==> K::before(
                    k.key(),
                    #[trigger] self.entries@[j].0.key(),
                ),
    {
        proof {
            use_type_invariant(self);
        }
        let mut i: usize = 0;
        while i < self.entries.len()
            invariant
                i <= self.entries@.len(),
                sorted(self.entries@),
                forall|j: int|
                    0 <= j < i ==> K::before(#[trigger] self.entries@[j].0.key(), k.key()),
            decreases self.entries@.len() - i,
        {
            match self.entries[i].0.order(k) {
                Order::Less => {},
                Order::Same => {
                    return (i, true);
                },
                Order::Greater => {
                    assert forall|j: int| i <= j < self.entries@.len() implies K::before(
                        k.key(),
                        #[trigger] self.entries@[j].0.key(),
                    ) by {
                        if j > i {
                            K::before_transitive(
                                k.key(),
                                self.entries@[i as int].0.key(),
                                self.entries@[j].0.key(),
                            );
                        }
                    }
                    return (i, false);
                },
            }
            i = i + 1;
        }
        (i, false)
    }

    proof fn lemma_absent(s: Seq<(K, V)>, k: K::S, i: int)
        requires
            0 <= i <= s.len(),
            forall|j: int| 0 <= j < i ==> K::before(#[trigger] s[j].0.key(), k),
            forall|j: int| i <= j < s.len() ==> K::before(k, #[trigger] s[j].0.key()),
        ensures
            !entries_map(s).contains_key(k),
    {
        K::before_irreflexive(k);
        if entries_map(s).contains_key(k) {
            let j = choose|j: int| key_at(s, k, j);
            assert(s[j].0.key() == k);
        }
    }

    pub fn get(&self, k: &K) -> (r: Option<&V>)
        ensures
            match r {
                Some(v) => self@.contains_key(k.key()) && *v == self@[k.key()],
                None => !self@.contains_key(k.key()),
            },
    {
        let p = self.position(k);
        proof {
            use_type_invariant(self);
            if p.1 {
                lemma_entry(self.entries@, p.0 as int);
            } else {
                Self::lemma_absent(self.entries@, k.key(), p.0 as int);
            }
        }
        if p.1 {
            Some(&self.entries[p.0].1)
        } else {
            None
        }
    }

    pub fn contains_key(&self, k: &K) -> (r: bool)
        ensures
            r == self@.contains_key(k.key()),
    {
        match self.get(k) {
            Some(_) => true,
            None => false,
        }
    }

    /// Puts `v` at `k` and hands back what stood there.
    pub fn insert(&mut self, k: K, v: V) -> (r: Option<V>)
        ensures
            final(self)@ == old(self)@.insert(k.key(), v),
            match r {
                Some(w) => old(self)@.contains_key(k.key()) && w == old(self)@[k.key()],
                None => !old(self)@.contains_key(k.key()),
            },
            match r {
                Some(_) => exists|i: int| #[trigger]
                    key_at(old(self).entries(), k.key(), i) && final(self).entries() == old(
                        self,
                    ).entries().update(i, (old(self).entries()[i].0, v)),
                None => exists|i: int|
                    0 <= i <= old(self).entries().len() && final(self).entries() == #[trigger] old(
                        self,
                    ).entries().insert(i, (k, v)),
            },
    {
        proof {
            use_type_invariant(&*self);
        }
        let p = self.position(&k);
        let mut entries: Vec<(K, V)> = Vec::new();
        std::mem::swap(&mut entries, &mut self.entries);
        let ghost before = entries@;
        if p.1 {
            let (key, w) = entries.remove(p.0);
            entries.insert(p.0, (key, v));
            proof {
                lemma_entry(before, p.0 as int);
                lemma_update(before, p.0 as int, v);
                assert(entries@ =~= before.update(p.0 as int, (before[p.0 as int].0, v)));
                assert(key_at(before, k.key(), p.0 as int));
            }
            self.entries = entries;
            Some(w)
        } else {
            proof {
                lemma_insert(before, p.0 as int, k, v);
            }
            entries.insert(p.0, (k, v));
            self.entries = entries;
            None
        }
    }

    /// Takes out what stands at `k`.
    pub fn remove(&mut self, k: &K) -> (r: Option<V>)
        ensures
            final(self)@ == old(self)@.remove(k.key()),
            match r {
                Some(w) => old(self)@.contains_key(k.key()) && w == old(self)@[k.key()],
                None => !old(self)@.contains_key(k.key()),
            },
            match r {
                Some(_) => exists|i: int| #[trigger]
                    key_at(old(self).entries(), k.key(), i) && final(self).entries() == old(
                        self,
                    ).entries().remove(i),
                None => *final(self) == *old(self),
            },
    {
        proof {
            use_type_invariant(&*self);
        }
        let p = self.position(k);
        if p.1 {
            let mut entries: Vec<(K, V)> = Vec::new();
            std::mem::swap(&mut entries, &mut self.entries);
            proof {
                lemma_entry(entries@, p.0 as int);
                lemma_remove(entries@, p.0 as int);
                assert(key_at(entries@, k.key(), p.0 as int));
            }
            let (_, w) = entries.remove(p.0);
            self.entries = entries;
            Some(w)
        } else {
            proof {
                Self::lemma_absent(self.entries@, k.key(), p.0 as int);
                assert(self@ =~= self@.remove(k.key()));
            }
            None
        }
    }

    /// Replaces the value of the entry at `i`.
    pub fn set_at(&mut self, i: usize, v: V)
        requires
            i < old(self).entries().len(),
        ensures
            final(self).entries() == old(self).entries().update(
                i as int,
                (old(self).entries()[i as int].0, v),
            ),
            final(self)@ == old(self)@.insert(old(self).entries()[i as int].0.key(), v),
    {
        proof {
            use_type_invariant(&*self);
            lemma_update(self.entries@, i as int, v);
        }
        let mut entries: Vec<(K, V)> = Vec::new();
        std::mem::swap(&mut entries, &mut self.entries);
        let ghost before = entries@;
        let (key, _) = entries.remove(i);
        entries.insert(i, (key, v));
        assert(entries@ =~= before.update(i as int, (before[i as int].0, v)));
        self.entries = entries;
    }

    /// Takes out the entry at `i`.
    pub fn remove_at(&mut self, i: usize) -> (r: (K, V))
        requires
            i < old(self).entries().len(),
        ensures
            r == old(self).entries()[i as int],
            final(self).entries() == old(self).entries().remove(i as int),
            final(self)@ == old(self)@.remove(r.0.key()),
    {
        proof {
            use_type_invariant(&*self);
            lemma_remove(self.entries@, i as int);
        }
        let mut entries: Vec<(K, V)> = Vec::new();
        std::mem::swap(&mut entries, &mut self.entries);
        let r = entries.remove(i);
        self.entries = entries;
        r
    }

    pub fn clear(&mut self)
        ensures
            final(self)@ == Map::<K::S, V>::empty(),
            final(self).entries() == Seq::<(K, V)>::empty(),
    {
        self.entries = Vec::new();
        assert(self@ =~= Map::<K::S, V>::empty());
    }
}

/// The items are the members of a set, in order and each once.
pub open spec fn lists<K: Key>(items: Seq<K>, set: Set<K::S>) -> bool {
    &&& forall|i: int, j: int|
        #![trigger items[i], items[j]]
        0 <= i < j < items.len() ==> K::before(items[i].key(), items[j].key())
    &&& forall|i: int| 0 <= i < items.len() ==> set.contains((#[trigger] items[i]).key())
    &&& forall|k: K::S| #[trigger] set.contains(k) ==> has_key(items, k)
}

pub open spec fn has_key<K: Key>(items: Seq<K>, k: K::S) -> bool {
    exists|i: int| 0 <= i < items.len() && (#[trigger] items[i]).key() == k
}

/// A set whose members are kept in order.
#[derive(Debug)]
pub struct SortedSet<K: Key> {
    members: SortedMap<K, ()>,
}

impl<K: Key> View for SortedSet<K> {
    type V = Set<K::S>;

    closed spec fn view(&self) -> Set<K::S> {
        self.members@.dom()
    }
}

impl<K: Key> SortedSet<K> {
    /// The members in order.
    pub closed spec fn items(self) -> Seq<K> {
        self.members.entries().map_values(|e: (K, ())| e.0)
    }

    pub fn new() -> (r: Self)
        ensures
            r@ == Set::<K::S>::empty(),
            r.items() == Seq::<K>::empty(),
    {
        let r = SortedSet { members: SortedMap::new() };
        assert(r@ =~= Set::<K::S>::empty());
        assert(r.items() =~= Seq::<K>::empty());
        r
    }

    /// How many members there are. Every set holds its members in order.
    pub fn len(&self) -> (r: usize)
        ensures
            r == self.items().len(),
            lists(self.items(), self@),
    {
        let n: usize = self.members.len();
        proof {
            let es = self.members.entries();
            let items = self.items();
            assert forall|i: int, j: int|
                #![trigger items[i], items[j]]
                0 <= i < j < items.len() implies K::before(items[i].key(), items[j].key()) by {
                assert(es[i].0 == items[i] && es[j].0 == items[j]);
            }
            assert forall|i: int| 0 <= i < items.len() implies self@.contains(
                (#[trigger] items[i]).key(),
            ) by {
                lemma_entry(es, i);
            }
            assert forall|k: K::S| #[trigger] self@.contains(k) implies has_key(items, k) by {
                let i = lemma_has_entry(es, k);
                assert(items[i].key() == k);
            }
        }
        n
    }

    pub fn is_empty(&self) -> (r: bool)
        ensures
            r == (self.items().len() == 0),
            r == (self@ == Set::<K::S>::empty()),
    {
        let r = self.members.is_empty();
        proof {
            if r {
                assert(self@ =~= Set::<K::S>::empty());
            } else if self@ == Set::<K::S>::empty() {
                assert(self.members@ =~= Map::<K::S, ()>::empty());
            }
        }
        r
    }

    /// The member at `i`.
    pub fn item(&self, i: usize) -> (r: &K)
        requires
            i < self.items().len(),
        ensures
            *r == self.items()[i as int],
            self@.contains(r.key()),
    {
        self.members.key_of(i)
    }

    pub fn contains(&self, k: &K) -> (r: bool)
        ensures
            r == self@.contains(k.key()),
    {
        self.members.contains_key(k)
    }

    /// Adds `k` and tells whether it was missing.
    pub fn insert(&mut self, k: K) -> (r: bool)
        ensures
            final(self)@ == old(self)@.insert(k.key()),
            r == !old(self)@.contains(k.key()),
    {
        let r = self.members.insert(k, ()).is_none();
        assert(self@ =~= old(self)@.insert(k.key()));
        r
    }

    /// Takes `k` out and tells whether it was there.
    pub fn remove(&mut self, k: &K) -> (r: bool)
        ensures
            final(self)@ == old(self)@.remove(k.key()),
            r == old(self)@.contains(k.key()),
    {
        let r = self.members.remove(k).is_some();
        assert(self@ =~= old(self)@.remove(k.key()));
        r
    }

    pub fn clear(&mut self)
        ensures
            final(self)@ == Set::<K::S>::empty(),
            final(self).items() == Seq::<K>::empty(),
    {
        self.members.clear();
        assert(self@ =~= Set::<K::S>::empty());
        assert(self.items() =~= Seq::<K>::empty());
    }
}

/// A list of the members of a set has exactly the members, each once.
pub proof fn members_are_listed_once<K: Key>(items: Seq<K>, set: Set<K::S>, k: K::S)
    requires
        lists(items, set),
    ensures
        set.contains(k) <==> exists|i: int| 0 <= i < items.len() && (#[trigger] items[i]).key() == k,
        forall|i: int, j: int|
            #![trigger items[i], items[j]]
            0 <= i < j < items.len() ==> items[i].key() != items[j].key(),
{
    assert forall|i: int, j: int|
        #![trigger items[i], items[j]]
        0 <= i < j < items.len() implies items[i].key() != items[j].key() by {
        K::before_irreflexive(items[i].key());
    }
    if set.contains(k) {
        assert(has_key(items, k));
    }
}

} // verus!
