//! Sorting by a key.

use crate::order::{Key, Order};
use vstd::prelude::*;
use vstd::seq_lib::{group_to_multiset_ensures, to_multiset_contains};

verus! {

/// `x` put behind every item whose key is not after its own.
pub open spec fn place<K: Key, T>(s: Seq<(K, T)>, x: (K, T)) -> Seq<(K, T)>
    decreases s.len(),
{
    if s.len() == 0 {
        seq![x]
    } else if K::before(x.0.key(), s.last().0.key()) {
        place(s.drop_last(), x).push(s.last())
    } else {
        s.push(x)
    }
}

/// The items in the order of their keys; those with the same key stay in their order.
pub open spec fn stable_sort<K: Key, T>(s: Seq<(K, T)>) -> Seq<(K, T)>
    decreases s.len(),
{
    if s.len() == 0 {
        Seq::empty()
    } else {
        place(stable_sort(s.drop_last()), s.last())
    }
}

/// No item comes before one with a smaller key.
pub open spec fn in_key_order<K: Key, T>(s: Seq<(K, T)>) -> bool {
    forall|i: int, j: int|
        #![trigger s[i], s[j]]
        0 <= i < j < s.len() ==> !K::before(s[j].0.key(), s[i].0.key())
}

proof fn lemma_place_at<K: Key, T>(s: Seq<(K, T)>, x: (K, T), i: int)
    requires
        0 <= i <= s.len(),
        forall|j: int| i <= j < s.len() ==> K::before(x.0.key(), #[trigger] s[j].0.key()),
        i > 0 ==> !K::before(x.0.key(), s[i - 1].0.key()),
    ensures
        place(s, x) == s.insert(i, x),
    decreases s.len(),
{
    if s.len() == 0 {
        assert(seq![x] =~= s.insert(0, x));
    } else if i == s.len() {
        assert(s.push(x) =~= s.insert(i, x));
    } else {
        assert(K::before(x.0.key(), s[s.len() - 1].0.key()));
        lemma_place_at(s.drop_last(), x, i);
        assert(s.drop_last().insert(i, x).push(s.last()) =~= s.insert(i, x));
    }
}

/// Sorts by key; items with the same key keep their order.
pub fn sort_by_key<K: Key, T>(items: Vec<(K, T)>) -> (r: Vec<(K, T)>)
    ensures
        r@ == stable_sort(items@),
{
    let mut items = items;
    let mut rest: Vec<(K, T)> = Vec::new();
    let ghost all = items@;
    let n: usize = items.len();
    // Turn the items round, so that they can be taken off the end from the first on.
    for i in 0..n
        invariant
            n == all.len(),
            items@ == all.take(n - i),
            rest@ == all.skip(n - i).reverse(),
    {
        let x = items.pop();
        match x {
            Some(x) => {
                rest.push(x);
                assert(items@ =~= all.take(n - i - 1));
                assert(rest@ =~= all.skip(n - i - 1).reverse());
            },
            None => {},
        }
    }
    assert(rest@ =~= all.reverse());
    let mut sorted: Vec<(K, T)> = Vec::new();
    assert(all.take(0) =~= Seq::<(K, T)>::empty());
    for i in 0..n
        invariant
            n == all.len(),
            rest@ == all.skip(i as int).reverse(),
            sorted@ == stable_sort(all.take(i as int)),
    {
        proof {
            assert(all.take(i + 1).drop_last() =~= all.take(i as int));
            assert(all.take(i + 1).last() == all[i as int]);
            assert(all.skip(i as int).reverse().last() == all[i as int]);
        }
        match rest.pop() {
            Some(x) => {
                assert(rest@ =~= all.skip(i + 1).reverse());
                insert_by_key(&mut sorted, x);
            },
            None => {},
        }
    }
    assert(all.take(n as int) =~= all);
    sorted
}

fn insert_by_key<K: Key, T>(sorted: &mut Vec<(K, T)>, x: (K, T))
    ensures
        final(sorted)@ == place(old(sorted)@, x),
{
    let mut i: usize = sorted.len();
    while i > 0
        invariant_except_break
            i <= sorted@.len(),
            sorted@ == old(sorted)@,
            forall|j: int|
                i <= j < sorted@.len() ==> K::before(x.0.key(), #[trigger] sorted@[j].0.key()),
        ensures
            i <= sorted@.len(),
            sorted@ == old(sorted)@,
            forall|j: int|
                i <= j < sorted@.len() ==> K::before(x.0.key(), #[trigger] sorted@[j].0.key()),
            i > 0 ==> !K::before(x.0.key(), sorted@[i - 1].0.key()),
        decreases i,
    {
        match x.0.order(&sorted[i - 1].0) {
            Order::Less => {},
            Order::Same => {
                proof {
                    K::before_irreflexive(x.0.key());
                }
                break;
            },
            Order::Greater => {
                proof {
                    let a = x.0.key();
                    let b = sorted@[i - 1].0.key();
                    if K::before(a, b) {
                        K::before_transitive(a, b, a);
                        K::before_irreflexive(a);
                    }
                }
                break;
            },
        }
        i = i - 1;
    }
    proof {
        lemma_place_at(sorted@, x, i as int);
    }
    sorted.insert(i, x);
}

proof fn lemma_place<K: Key, T>(s: Seq<(K, T)>, x: (K, T))
    requires
        in_key_order(s),
    ensures
        in_key_order(place(s, x)),
        place(s, x).to_multiset() == s.to_multiset().insert(x),
        forall|k: K::S|
            (forall|i: int| 0 <= i < s.len() ==> !K::before(k, #[trigger] s[i].0.key()))
                && !K::before(k, x.0.key()) ==> forall|i: int|
                0 <= i < place(s, x).len() ==> !K::before(k, #[trigger] place(s, x)[i].0.key()),
    decreases s.len(),
{
    broadcast use group_to_multiset_ensures;

    if s.len() == 0 {
        assert(seq![x] =~= Seq::<(K, T)>::empty().push(x));
        assert(s =~= Seq::<(K, T)>::empty());
    } else if K::before(x.0.key(), s.last().0.key()) {
        let head = s.drop_last();
        let last = s.last();
        assert(in_key_order(head));
        lemma_place(head, x);
        let t = place(head, x);
        assert(s =~= head.push(last));
        assert forall|i: int| 0 <= i < head.len() implies !K::before(
            last.0.key(),
            #[trigger] head[i].0.key(),
        ) by {
            assert(head[i] == s[i]);
            assert(!K::before(s[s.len() - 1].0.key(), s[i].0.key()));
        }
        assert(!K::before(last.0.key(), x.0.key())) by {
            if K::before(last.0.key(), x.0.key()) {
                K::before_transitive(x.0.key(), last.0.key(), x.0.key());
                K::before_irreflexive(x.0.key());
            }
        }
        let u = t.push(last);
        assert forall|i: int, j: int|
            #![trigger u[i], u[j]]
            0 <= i < j < u.len() implies !K::before(u[j].0.key(), u[i].0.key()) by {
            assert(u[i] == t[i]);
            if j < t.len() {
                assert(u[j] == t[j]);
            }
        }
        assert forall|k: K::S|
            (forall|i: int| 0 <= i < s.len() ==> !K::before(k, #[trigger] s[i].0.key()))
                && !K::before(k, x.0.key()) implies forall|i: int|
            0 <= i < u.len() ==> !K::before(k, #[trigger] u[i].0.key()) by {
            assert forall|i: int| 0 <= i < head.len() implies !K::before(
                k,
                #[trigger] head[i].0.key(),
            ) by {
                assert(head[i] == s[i]);
            }
            assert forall|i: int| 0 <= i < u.len() implies !K::before(
                k,
                #[trigger] u[i].0.key(),
            ) by {
                if i < t.len() {
                    assert(u[i] == t[i]);
                } else {
                    assert(u[i] == s[s.len() - 1]);
                }
            }
        }
        assert(u.to_multiset() =~= s.to_multiset().insert(x));
    } else {
        let u = s.push(x);
        let last = s.last();
        assert forall|i: int, j: int|
            #![trigger u[i], u[j]]
            0 <= i < j < u.len() implies !K::before(u[j].0.key(), u[i].0.key()) by {
            if j == s.len() {
                let a = u[i].0.key();
                let b = last.0.key();
                let c = x.0.key();
                if K::before(c, a) {
                    // Either the last key is the item's own, or it comes before it.
                    if i < s.len() - 1 {
                        assert(!K::before(s[s.len() - 1].0.key(), s[i].0.key()));
                    }
                    K::before_total(b, c);
                    if K::before(b, c) {
                        K::before_transitive(b, c, a);
                    }
                    K::before_irreflexive(a);
                }
            } else {
                assert(u[i] == s[i] && u[j] == s[j]);
            }
        }
        assert forall|k: K::S|
            (forall|i: int| 0 <= i < s.len() ==> !K::before(k, #[trigger] s[i].0.key()))
                && !K::before(k, x.0.key()) implies forall|i: int|
            0 <= i < u.len() ==> !K::before(k, #[trigger] u[i].0.key()) by {
            assert forall|i: int| 0 <= i < u.len() implies !K::before(
                k,
                #[trigger] u[i].0.key(),
            ) by {
                if i < s.len() {
                    assert(u[i] == s[i]);
                }
            }
        }
    }
}

/// Sorting brings the items in the order of their keys and keeps every one of them.
pub proof fn sorting_orders_and_keeps<K: Key, T>(s: Seq<(K, T)>)
    ensures
        in_key_order(stable_sort(s)),
        stable_sort(s).to_multiset() == s.to_multiset(),
        stable_sort(s).len() == s.len(),
    decreases s.len(),
{
    broadcast use group_to_multiset_ensures;

    if s.len() == 0 {
        assert(s =~= Seq::<(K, T)>::empty());
    } else {
        sorting_orders_and_keeps(s.drop_last());
        lemma_place(stable_sort(s.drop_last()), s.last());
        assert(s =~= s.drop_last().push(s.last()));
        let t = stable_sort(s);
        assert(t.to_multiset() =~= s.to_multiset());
        assert(t.to_multiset().len() == t.len());
    }
}

/// Sequences with the same items have the same items still when each is mapped.
pub proof fn lemma_same_items_mapped<A, B>(s: Seq<A>, t: Seq<A>, f: spec_fn(A) -> B)
    requires
        s.to_multiset() == t.to_multiset(),
    ensures
        s.map_values(f).to_multiset() == t.map_values(f).to_multiset(),
    decreases s.len(),
{
    broadcast use group_to_multiset_ensures;

    assert(s.to_multiset().len() == s.len());
    assert(t.to_multiset().len() == t.len());
    if s.len() == 0 {
        assert(s.map_values(f) =~= t.map_values(f));
    } else {
        let n = s.len() - 1;
        assert(s.contains(s[n]));
        to_multiset_contains(s, s[n]);
        to_multiset_contains(t, s[n]);
        let i = choose|i: int| 0 <= i < t.len() && t[i] == s[n];
        assert(s.remove(n).to_multiset() == t.remove(i).to_multiset());
        lemma_same_items_mapped(s.remove(n), t.remove(i), f);
        assert(s.remove(n).map_values(f) =~= s.map_values(f).remove(n));
        assert(t.remove(i).map_values(f) =~= t.map_values(f).remove(i));
        let a = s.map_values(f).to_multiset();
        let b = t.map_values(f).to_multiset();
        let y = f(s[n]);
        assert(s.map_values(f)[n] == y && t.map_values(f)[i] == y);
        assert(s.map_values(f).contains(y) && t.map_values(f).contains(y));
        assert(a.remove(y) == b.remove(y));
        assert(a =~= a.remove(y).insert(y));
        assert(b =~= b.remove(y).insert(y));
    }
}

/// Tells the items with the key.
pub open spec fn has_key<K: Key, T>(k: K::S) -> spec_fn((K, T)) -> bool {
    |p: (K, T)| p.0.key() == k
}

proof fn lemma_place_keeps_equals<K: Key, T>(s: Seq<(K, T)>, x: (K, T), k: K::S)
    ensures
        place(s, x).filter(has_key::<K, T>(k)) == (if x.0.key() == k {
            s.filter(has_key::<K, T>(k)).push(x)
        } else {
            s.filter(has_key::<K, T>(k))
        }),
    decreases s.len(),
{
    reveal(Seq::filter);
    if s.len() == 0 {
        assert(seq![x].drop_last() =~= s);
        reveal_with_fuel(Seq::filter, 2);
    } else if K::before(x.0.key(), s.last().0.key()) {
        let head = s.drop_last();
        lemma_place_keeps_equals(head, x, k);
        let p = place(head, x);
        assert(p.push(s.last()).drop_last() =~= p);
        K::before_irreflexive(k);
    } else {
        assert(s.push(x).drop_last() =~= s);
    }
}

/// Sorting is stable: the items with one key come in the order in which they were given.
pub proof fn sorting_keeps_equals_in_their_order<K: Key, T>(s: Seq<(K, T)>, k: K::S)
    ensures
        stable_sort(s).filter(has_key::<K, T>(k)) == s.filter(has_key::<K, T>(k)),
    decreases s.len(),
{
    reveal(Seq::filter);
    if s.len() > 0 {
        sorting_keeps_equals_in_their_order(s.drop_last(), k);
        lemma_place_keeps_equals(stable_sort(s.drop_last()), s.last(), k);
    } else {
        assert(s =~= Seq::<(K, T)>::empty());
    }
}

} // verus!
