//! Total orders on the keys that the project indexes its state by.

use vstd::prelude::*;

verus! {

/// The outcome of comparing two keys.
#[derive(Debug, Clone, Copy, PartialEq, Eq, Structural)]
pub enum Order {
    Less,
    Same,
    Greater,
}

/// A value by which a map can be indexed. Two keys are the same key when their `key()` agrees,
/// and `before` orders those meanings.
pub trait Key: Sized {
    type S;

    /// What the key stands for.
    spec fn key(self) -> Self::S;

    /// The strict order of the keys.
    spec fn before(a: Self::S, b: Self::S) -> bool;

    proof fn before_irreflexive(a: Self::S)
        ensures
            !Self::before(a, a),
    ;

    proof fn before_transitive(a: Self::S, b: Self::S, c: Self::S)
        requires
            Self::before(a, b),
            Self::before(b, c),
        ensures
            Self::before(a, c),
    ;

    proof fn before_total(a: Self::S, b: Self::S)
        ensures
            Self::before(a, b) || a == b || Self::before(b, a),
    ;

    /// Compares two keys.
    fn order(&self, other: &Self) -> (r: Order)
        ensures
            match r {
                Order::Less => Self::before(self.key(), other.key()),
                Order::Same => self.key() == other.key(),
                Order::Greater => Self::before(other.key(), self.key()),
            },
    ;
}

/// Tells whether two keys are the same key.
pub fn same<K: Key>(a: &K, b: &K) -> (r: bool)
    ensures
        r == (a.key() == b.key()),
{
    proof {
        K::before_irreflexive(a.key());
    }
    match a.order(b) {
        Order::Same => true,
        _ => false,
    }
}

impl Key for u64 {
    type S = u64;

    open spec fn key(self) -> u64 {
        self
    }

    open spec fn before(a: u64, b: u64) -> bool {
        a < b
    }

    proof fn before_irreflexive(a: u64) {
    }

    proof fn before_transitive(a: u64, b: u64, c: u64) {
    }

    proof fn before_total(a: u64, b: u64) {
    }

    fn order(&self, other: &Self) -> (r: Order) {
        if *self < *other {
            Order::Less
        } else if *other < *self {
            Order::Greater
        } else {
            Order::Same
        }
    }
}

impl Key for usize {
    type S = usize;

    open spec fn key(self) -> usize {
        self
    }

    open spec fn before(a: usize, b: usize) -> bool {
        a < b
    }

    proof fn before_irreflexive(a: usize) {
    }

    proof fn before_transitive(a: usize, b: usize, c: usize) {
    }

    proof fn before_total(a: usize, b: usize) {
    }

    fn order(&self, other: &Self) -> (r: Order) {
        if *self < *other {
            assert(<usize as Key>::before(self.key(), other.key()));
            Order::Less
        } else if *other < *self {
            Order::Greater
        } else {
            Order::Same
        }
    }
}

/// Pairs are ordered by their first component, then by their second.
impl<A: Key, B: Key> Key for (A, B) {
    type S = (A::S, B::S);

    open spec fn key(self) -> (A::S, B::S) {
        (self.0.key(), self.1.key())
    }

    open spec fn before(a: (A::S, B::S), b: (A::S, B::S)) -> bool {
        A::before(a.0, b.0) || (a.0 == b.0 && B::before(a.1, b.1))
    }

    proof fn before_irreflexive(a: (A::S, B::S)) {
        A::before_irreflexive(a.0);
        B::before_irreflexive(a.1);
    }

    proof fn before_transitive(a: (A::S, B::S), b: (A::S, B::S), c: (A::S, B::S)) {
        if A::before(a.0, b.0) && A::before(b.0, c.0) {
            A::before_transitive(a.0, b.0, c.0);
        }
        if B::before(a.1, b.1) && B::before(b.1, c.1) {
            B::before_transitive(a.1, b.1, c.1);
        }
    }

    proof fn before_total(a: (A::S, B::S), b: (A::S, B::S)) {
        A::before_total(a.0, b.0);
        B::before_total(a.1, b.1);
    }

    fn order(&self, other: &Self) -> (r: Order) {
        match self.0.order(&other.0) {
            Order::Same => self.1.order(&other.1),
            o => o,
        }
    }
}

/// A missing key comes before every present one.
impl<A: Key> Key for Option<A> {
    type S = Option<A::S>;

    open spec fn key(self) -> Option<A::S> {
        match self {
            Some(a) => Some(a.key()),
            None => None,
        }
    }

    open spec fn before(a: Option<A::S>, b: Option<A::S>) -> bool {
        match (a, b) {
            (None, Some(_)) => true,
            (Some(x), Some(y)) => A::before(x, y),
            _ => false,
        }
    }

    proof fn before_irreflexive(a: Option<A::S>) {
        if let Some(x) = a {
            A::before_irreflexive(x);
        }
    }

    proof fn before_transitive(a: Option<A::S>, b: Option<A::S>, c: Option<A::S>) {
        if let (Some(x), Some(y), Some(z)) = (a, b, c) {
            A::before_transitive(x, y, z);
        }
    }

    proof fn before_total(a: Option<A::S>, b: Option<A::S>) {
        if let (Some(x), Some(y)) = (a, b) {
            A::before_total(x, y);
        }
    }

    fn order(&self, other: &Self) -> (r: Order) {
        match (self, other) {
            (Some(a), Some(b)) => a.order(b),
            (Some(_), None) => Order::Greater,
            (None, Some(_)) => Order::Less,
            (None, None) => Order::Same,
        }
    }
}

/// `a` and `b` agree up to `i`, and there `a` ends or has the smaller item.
pub open spec fn lex_at<T>(a: Seq<T>, b: Seq<T>, lt: spec_fn(T, T) -> bool, i: int) -> bool {
    &&& 0 <= i <= a.len()
    &&& i < b.len()
    &&& forall|j: int| 0 <= j < i ==> a[j] == b[j]
    &&& i == a.len() || lt(a[i], b[i])
}

/// The lexicographic order that `lt` induces on sequences.
pub open spec fn lex_before<T>(a: Seq<T>, b: Seq<T>, lt: spec_fn(T, T) -> bool) -> bool {
    exists|i: int| lex_at(a, b, lt, i)
}

pub proof fn lemma_lex_irreflexive<T>(a: Seq<T>, lt: spec_fn(T, T) -> bool)
    requires
        forall|x: T| !#[trigger] lt(x, x),
    ensures
        !lex_before(a, a, lt),
{
}

pub proof fn lemma_lex_transitive<T>(a: Seq<T>, b: Seq<T>, c: Seq<T>, lt: spec_fn(T, T) -> bool)
    requires
        forall|x: T, y: T, z: T| #[trigger] lt(x, y) && #[trigger] lt(y, z) ==> lt(x, z),
        lex_before(a, b, lt),
        lex_before(b, c, lt),
    ensures
        lex_before(a, c, lt),
{
    let i = choose|i: int| lex_at(a, b, lt, i);
    let j = choose|j: int| lex_at(b, c, lt, j);
    if i <= j {
        assert(lex_at(a, c, lt, i));
    } else {
        assert(lex_at(a, c, lt, j));
    }
}

pub proof fn lemma_lex_total<T>(a: Seq<T>, b: Seq<T>, lt: spec_fn(T, T) -> bool, i: int)
    requires
        forall|x: T, y: T| #[trigger] lt(x, y) || x == y || lt(y, x),
        0 <= i <= a.len(),
        i <= b.len(),
        forall|j: int| 0 <= j < i ==> a[j] == b[j],
    ensures
        lex_before(a, b, lt) || a == b || lex_before(b, a, lt),
    decreases a.len() - i,
{
    if i < a.len() && i < b.len() {
        if lt(a[i], b[i]) {
            assert(lex_at(a, b, lt, i));
        } else if a[i] == b[i] {
            lemma_lex_total(a, b, lt, i + 1);
        } else {
            assert(lex_at(b, a, lt, i));
        }
    } else if i < b.len() {
        assert(lex_at(a, b, lt, i));
    } else if i < a.len() {
        assert(lex_at(b, a, lt, i));
    } else {
        assert(a =~= b);
    }
}

pub open spec fn char_before() -> spec_fn(char, char) -> bool {
    |x: char, y: char| (x as int) < (y as int)
}

/// The Unicode code point of a character.
fn code_point(c: char) -> (r: u32)
    ensures
        r as int == c as int,
{
    c as u32
}

/// The characters of a text, in order.
pub fn chars_of(text: &str) -> (r: Vec<char>)
    ensures
        r@ == text@,
{
    let mut r: Vec<char> = Vec::new();
    for c in it: text.chars()
        invariant
            it.seq() == text@,
            r@ == it.seq().take(it.index() as int),
    {
        r.push(c);
    }
    r
}

/// Texts are ordered by their characters, from the first on.
impl Key for String {
    type S = Seq<char>;

    open spec fn key(self) -> Seq<char> {
        self@
    }

    open spec fn before(a: Seq<char>, b: Seq<char>) -> bool {
        lex_before(a, b, char_before())
    }

    proof fn before_irreflexive(a: Seq<char>) {
        lemma_lex_irreflexive(a, char_before());
    }

    proof fn before_transitive(a: Seq<char>, b: Seq<char>, c: Seq<char>) {
        lemma_lex_transitive(a, b, c, char_before());
    }

    proof fn before_total(a: Seq<char>, b: Seq<char>) {
        lemma_lex_total(a, b, char_before(), 0);
    }

    fn order(&self, other: &Self) -> (r: Order) {
        let a = chars_of(self.as_str());
        let b = chars_of(other.as_str());
        let mut i: usize = 0;
        while i < a.len() && i < b.len()
            invariant
                i <= a@.len(),
                i <= b@.len(),
                a@ == self@,
                b@ == other@,
                forall|j: int| 0 <= j < i ==> a@[j] == b@[j],
            decreases a@.len() - i,
        {
            let x: u32 = code_point(a[i]);
            let y: u32 = code_point(b[i]);
            if x < y {
                assert(lex_at(a@, b@, char_before(), i as int));
                return Order::Less;
            }
            if y < x {
                assert(lex_at(b@, a@, char_before(), i as int));
                return Order::Greater;
            }
            i = i + 1;
        }
        if i < b.len() {
            assert(lex_at(a@, b@, char_before(), i as int));
            Order::Less
        } else if i < a.len() {
            assert(lex_at(b@, a@, char_before(), i as int));
            Order::Greater
        } else {
            assert(a@ =~= b@);
            Order::Same
        }
    }
}

/// Numbers come in ascending order. A pair comes before another if its first part does, or if the
/// first parts are the same and its second part does.
pub proof fn numbers_ascend(a: u64, b: u64, c: u64, d: u64)
    ensures
        <u64 as Key>::before(a, b) <==> a < b,
        <(u64, u64) as Key>::before((a, c), (b, d)) <==> a < b || (a == b && c < d),
        <Option<u64> as Key>::before(None, Some(a)),
        <Option<u64> as Key>::before(Some(a), Some(b)) <==> a < b,
{
}

/// A text comes before every longer text that begins with it. Of two texts that differ, the one with
/// the smaller character at the first difference comes first.
pub proof fn texts_come_by_their_characters(
    start: Seq<char>,
    x: char,
    y: char,
    a: Seq<char>,
    b: Seq<char>,
)
    requires
        (x as int) < (y as int),
    ensures
        <String as Key>::before(start, start.push(x) + a),
        <String as Key>::before(start.push(x) + a, start.push(y) + b),
{
    let n = start.len() as int;
    assert(lex_at(start, start.push(x) + a, char_before(), n));
    assert(lex_at(start.push(x) + a, start.push(y) + b, char_before(), n));
}

} // verus!
