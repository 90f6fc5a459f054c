//! Paths as sequences of components.

use crate::order::{
    char_before, chars_of, lemma_lex_irreflexive, lemma_lex_total, lemma_lex_transitive, lex_at,
    lex_before, Key, Order,
};
use std::sync::Arc;
use vstd::prelude::*;

verus! {

/// What a path component stands for.
pub enum Part {
    Root,
    Current,
    Parent,
    Normal(Seq<char>),
}

/// One component of a path.
#[derive(Debug, PartialEq, Eq, Hash)]
pub enum Component {
    /// The separator that an absolute path starts with.
    RootDir,
    /// `.`
    CurDir,
    /// `..`
    ParentDir,
    Normal(String),
}

impl View for Component {
    type V = Part;

    open spec fn view(&self) -> Part {
        match self {
            Component::RootDir => Part::Root,
            Component::CurDir => Part::Current,
            Component::ParentDir => Part::Parent,
            Component::Normal(name) => Part::Normal(name@),
        }
    }
}

impl Clone for Component {
    fn clone(&self) -> (r: Self)
        ensures
            r == *self,
    {
        match self {
            Component::RootDir => Component::RootDir,
            Component::CurDir => Component::CurDir,
            Component::ParentDir => Component::ParentDir,
            Component::Normal(name) => Component::Normal(name.clone()),
        }
    }
}

/// The parts that components stand for.
pub open spec fn parts_of(components: Seq<Component>) -> Seq<Part> {
    components.map_values(|c: Component| c@)
}

/// The path that comes of appending one part: the root replaces what was there, and `.` adds
/// nothing to a path that has parts already.
pub open spec fn push_part(parts: Seq<Part>, part: Part) -> Seq<Part> {
    match part {
        Part::Root => seq![Part::Root],
        Part::Current => if parts.len() == 0 {
            seq![Part::Current]
        } else {
            parts
        },
        _ => parts.push(part),
    }
}

/// The path that comes of appending `tail` to `base`, part by part.
pub open spec fn joined(base: Seq<Part>, tail: Seq<Part>) -> Seq<Part>
    decreases tail.len(),
{
    if tail.len() == 0 {
        base
    } else {
        push_part(joined(base, tail.drop_last()), tail.last())
    }
}

/// The root and `.` stand nowhere but at the start.
pub open spec fn canonical(parts: Seq<Part>) -> bool {
    forall|i: int| 0 < i < parts.len() ==> !(#[trigger] parts[i] is Root) && !(parts[i] is Current)
}

/// A path that names something below another one: it has neither a root nor a `.`.
pub open spec fn descending(parts: Seq<Part>) -> bool {
    forall|i: int| 0 <= i < parts.len() ==> !(#[trigger] parts[i] is Root) && !(parts[i] is Current)
}

pub open spec fn part_text(part: Part) -> Seq<char> {
    match part {
        Part::Root => seq!['/'],
        Part::Current => seq!['.'],
        Part::Parent => seq!['.', '.'],
        Part::Normal(name) => name,
    }
}

/// The text of a path: its components separated by `/`, after a leading `/` where it has a root.
pub open spec fn path_text(parts: Seq<Part>) -> Seq<char>
    decreases parts.len(),
{
    if parts.len() == 0 {
        Seq::empty()
    } else {
        let head = parts.drop_last();
        if head.len() == 0 || head.last() is Root {
            path_text(head) + part_text(parts.last())
        } else {
            path_text(head) + seq!['/'] + part_text(parts.last())
        }
    }
}

pub open spec fn part_rank(part: Part) -> int {
    match part {
        Part::Root => 0,
        Part::Current => 1,
        Part::Parent => 2,
        Part::Normal(_) => 3,
    }
}

pub open spec fn part_before() -> spec_fn(Part, Part) -> bool {
    |x: Part, y: Part|
        part_rank(x) < part_rank(y) || match (x, y) {
            (Part::Normal(a), Part::Normal(b)) => lex_before(a, b, char_before()),
            _ => false,
        }
}

/// How many parts two paths have in common from the start on.
pub open spec fn common_len(a: Seq<Part>, b: Seq<Part>) -> nat
    decreases a.len(),
{
    if a.len() == 0 || b.len() == 0 || a[0] != b[0] {
        0
    } else {
        1 + common_len(a.skip(1), b.skip(1))
    }
}

/// `n` times `..`.
pub open spec fn parents(n: nat) -> Seq<Part> {
    Seq::new(n, |i: int| Part::Parent)
}

/// The steps from `base` to `path`, where the two have nothing in common at the start.
pub open spec fn steps(base: Seq<Part>, path: Seq<Part>) -> Seq<Part>
    decreases path.len(),
{
    if base.len() == 0 {
        path
    } else if path.len() == 0 {
        parents(base.len())
    } else if base[0] is Current {
        seq![path[0]] + steps(base.skip(1), path.skip(1))
    } else {
        parents(base.len()) + path
    }
}

/// The parts of `path` as seen from the directory `base`.
pub open spec fn relative_parts(base: Seq<Part>, path: Seq<Part>) -> Seq<Part> {
    let n = common_len(path, base) as int;
    joined(Seq::empty(), steps(base.skip(n), path.skip(n)))
}

/// The directory that a path lies in.
pub open spec fn parent_of(parts: Seq<Part>) -> Option<Seq<Part>> {
    if parts.len() == 0 || parts.last() is Root {
        None
    } else {
        Some(parts.drop_last())
    }
}

/// A path, shared between its holders.
#[derive(Debug, PartialEq, Eq, Hash)]
pub struct Path {
    components: Arc<Vec<Component>>,
}

impl View for Path {
    type V = Seq<Part>;

    closed spec fn view(&self) -> Seq<Part> {
        parts_of(self.components@)
    }
}

impl Clone for Path {
    fn clone(&self) -> (r: Self)
        ensures
            r == *self,
    {
        Path { components: self.components.clone() }
    }
}

fn push_component(components: &mut Vec<Component>, c: Component)
    ensures
        parts_of(final(components)@) == push_part(parts_of(old(components)@), c@),
{
    match c {
        Component::RootDir => {
            components.clear();
            components.push(Component::RootDir);
        },
        Component::CurDir => {
            if components.len() == 0 {
                components.push(Component::CurDir);
            }
        },
        Component::ParentDir => {
            components.push(Component::ParentDir);
        },
        Component::Normal(name) => {
            components.push(Component::Normal(name));
        },
    }
    assert(parts_of(components@) =~= push_part(parts_of(old(components)@), c@));
}

impl Path {
    /// The path without components.
    pub fn empty() -> (r: Self)
        ensures
            r@ == Seq::<Part>::empty(),
    {
        let r = Path { components: Arc::new(Vec::new()) };
        assert(r@ =~= Seq::<Part>::empty());
        r
    }

    /// The path that the components make when they are appended one after the other.
    pub fn from_components(components: Vec<Component>) -> (r: Self)
        ensures
            r@ == joined(Seq::empty(), parts_of(components@)),
    {
        let base = Path::empty();
        assert(parts_of(components@).skip(0) =~= parts_of(components@));
        base.join_components(&components, 0)
    }

    fn join_components(&self, tail: &Vec<Component>, from: usize) -> (r: Self)
        requires
            from <= tail@.len(),
        ensures
            r@ == joined(self@, parts_of(tail@).skip(from as int)),
    {
        let mut components: Vec<Component> = Vec::new();
        for i in 0..self.components.len()
            invariant
                components@ == self.components@.take(i as int),
        {
            components.push(self.components[i].clone());
        }
        assert(components@ =~= self.components@);
        let ghost t = parts_of(tail@).skip(from as int);
        assert(t.take(0) =~= Seq::<Part>::empty());
        for i in from..tail.len()
            invariant
                from <= tail@.len(),
                t == parts_of(tail@).skip(from as int),
                parts_of(components@) == joined(self@, t.take(i - from)),
        {
            push_component(&mut components, tail[i].clone());
            proof {
                assert(t.take(i - from + 1).drop_last() =~= t.take(i - from));
                assert(t.take(i - from + 1).last() == tail@[i as int]@);
            }
        }
        assert(t.take(t.len() as int) =~= t);
        Path { components: Arc::new(components) }
    }

    /// How many components the path has.
    pub fn len(&self) -> (r: usize)
        ensures
            r == self@.len(),
    {
        self.components.len()
    }

    pub fn is_empty(&self) -> (r: bool)
        ensures
            r == (self@.len() == 0),
    {
        self.components.len() == 0
    }

    /// The component at `i`.
    pub fn component(&self, i: usize) -> (r: &Component)
        requires
            i < self@.len(),
        ensures
            r@ == self@[i as int],
    {
        &self.components[i]
    }

    /// Tells whether the path is absolute.
    pub fn is_absolute(&self) -> (r: bool)
        ensures
            r == (self@.len() > 0 && self@[0] is Root),
    {
        if self.components.len() == 0 {
            return false;
        }
        match &self.components[0] {
            Component::RootDir => true,
            _ => false,
        }
    }

    /// The path that comes of appending `tail`.
    pub fn join(&self, tail: &Path) -> (r: Self)
        ensures
            r@ == joined(self@, tail@),
    {
        assert(tail@.skip(0) =~= tail@);
        self.join_components(&tail.components, 0)
    }

    /// Tells whether the path starts with the components of `base`.
    pub fn starts_with(&self, base: &Path) -> (r: bool)
        ensures
            r == base@.is_prefix_of(self@),
    {
        if base.components.len() > self.components.len() {
            return false;
        }
        for i in 0..base.components.len()
            invariant
                base@.len() <= self@.len(),
                forall|j: int| 0 <= j < i ==> base@[j] == self@[j],
        {
            if !same_component(&base.components[i], &self.components[i]) {
                assert(base@[i as int] != self@[i as int]);
                assert(!base@.is_prefix_of(self@));
                return false;
            }
            assert(base@[i as int] == self@[i as int]);
        }
        assert(base@ =~= self@.subrange(0, base@.len() as int));
        true
    }

    /// Tells whether the path ends with the components of `tail`.
    pub fn ends_with(&self, tail: &Path) -> (r: bool)
        ensures
            r == tail@.is_suffix_of(self@),
    {
        if tail.components.len() > self.components.len() {
            return false;
        }
        assert(self.components.len() <= usize::MAX);
        let d: usize = self.components.len() - tail.components.len();
        for i in 0..tail.components.len()
            invariant
                d + tail@.len() == self@.len(),
                self@.len() == self.components@.len() <= usize::MAX,
                forall|j: int| 0 <= j < i ==> tail@[j] == self@[d + j],
        {
            if !same_component(&tail.components[i], &self.components[d + i]) {
                assert(tail@[i as int] != self@[d + i]);
                assert(self@.subrange(d as int, self@.len() as int)[i as int] == self@[d + i]);
                return false;
            }
            assert(tail@[i as int] == self@[d + i]);
        }
        assert(tail@ =~= self@.subrange(d as int, self@.len() as int));
        true
    }

    /// The path below `base`, where it starts with `base`.
    pub fn strip_prefix(&self, base: &Path) -> (r: Option<Path>)
        ensures
            match r {
                Some(tail) => base@.is_prefix_of(self@) && tail@ == self@.skip(base@.len() as int),
                None => !base@.is_prefix_of(self@),
            },
    {
        if !self.starts_with(base) {
            return None;
        }
        let n: usize = base.components.len();
        let mut components: Vec<Component> = Vec::new();
        for i in n..self.components.len()
            invariant
                n <= self.components@.len(),
                components@ == self.components@.subrange(n as int, i as int),
        {
            components.push(self.components[i].clone());
            assert(components@ =~= self.components@.subrange(n as int, i + 1));
        }
        let r = Path { components: Arc::new(components) };
        assert(r@ =~= self@.skip(n as int));
        Some(r)
    }

    /// The path without its last `n` components.
    pub fn without_last(&self, n: usize) -> (r: Path)
        requires
            n <= self@.len(),
        ensures
            r@ == self@.take(self@.len() - n),
    {
        let m: usize = self.components.len() - n;
        let mut components: Vec<Component> = Vec::new();
        for i in 0..m
            invariant
                m <= self.components@.len(),
                components@ == self.components@.take(i as int),
        {
            components.push(self.components[i].clone());
            assert(components@ =~= self.components@.take(i + 1));
        }
        let r = Path { components: Arc::new(components) };
        assert(r@ =~= self@.take(m as int));
        r
    }

    /// The path of the directory that the path lies in.
    pub fn parent(&self) -> (r: Option<Path>)
        ensures
            match r {
                Some(p) => parent_of(self@) == Some(p@),
                None => parent_of(self@) is None,
            },
    {
        if self.components.len() == 0 {
            return None;
        }
        match &self.components[self.components.len() - 1] {
            Component::RootDir => None,
            _ => {
                let p = self.without_last(1);
                assert(p@ =~= self@.drop_last());
                Some(p)
            },
        }
    }

    /// The name that the path ends with.
    pub fn file_name(&self) -> (r: Option<String>)
        ensures
            match r {
                Some(name) => self@.len() > 0 && self@.last() == Part::Normal(name@),
                None => self@.len() == 0 || !(self@.last() is Normal),
            },
    {
        if self.components.len() == 0 {
            return None;
        }
        match &self.components[self.components.len() - 1] {
            Component::Normal(name) => Some(name.clone()),
            _ => None,
        }
    }

    /// Tells whether one of the components is `name`.
    pub fn has_component(&self, name: &str) -> (r: bool)
        ensures
            r == self@.contains(Part::Normal(name@)),
    {
        let wanted = name.to_owned();
        for i in 0..self.components.len()
            invariant
                wanted@ == name@,
                forall|j: int| 0 <= j < i ==> self@[j] != Part::Normal(name@),
        {
            if let Component::Normal(n) = &self.components[i] {
                if *n == wanted {
                    assert(self@[i as int] == Part::Normal(name@));
                    return true;
                }
            }
        }
        false
    }

    /// The path as text.
    pub fn to_text(&self) -> (r: String)
        ensures
            r@ == path_text(self@),
    {
        let mut text = String::new();
        proof {
            reveal_strlit("");
            reveal_strlit("/");
            reveal_strlit(".");
            reveal_strlit("..");
            assert(self@.take(0) =~= Seq::<Part>::empty());
            assert(text@ =~= Seq::<char>::empty());
        }
        let mut after_name = false;
        for i in 0..self.components.len()
            invariant
                text@ == path_text(self@.take(i as int)),
                after_name == (i > 0 && !(self@[i - 1] is Root)),
                "/"@ == seq!['/'],
                "."@ == seq!['.'],
                ".."@ == seq!['.', '.'],
        {
            let ghost head = self@.take(i as int);
            proof {
                assert(self@.take(i + 1).drop_last() =~= head);
                assert(self@.take(i + 1).last() == self@[i as int]);
                if i > 0 {
                    assert(head.last() == self@[i - 1]);
                }
            }
            if after_name {
                text.append("/");
            }
            match &self.components[i] {
                Component::RootDir => {
                    text.append("/");
                    after_name = false;
                },
                Component::CurDir => {
                    text.append(".");
                    after_name = true;
                },
                Component::ParentDir => {
                    text.append("..");
                    after_name = true;
                },
                Component::Normal(name) => {
                    text.append(name.as_str());
                    after_name = true;
                },
            }
        }
        assert(self@.take(self@.len() as int) =~= self@);
        text
    }
}

fn same_component(a: &Component, b: &Component) -> (r: bool)
    ensures
        r == (a@ == b@),
{
    match (a, b) {
        (Component::RootDir, Component::RootDir) => true,
        (Component::CurDir, Component::CurDir) => true,
        (Component::ParentDir, Component::ParentDir) => true,
        (Component::Normal(x), Component::Normal(y)) => *x == *y,
        _ => false,
    }
}

fn component_rank(c: &Component) -> (r: u8)
    ensures
        r == part_rank(c@),
{
    match c {
        Component::RootDir => 0,
        Component::CurDir => 1,
        Component::ParentDir => 2,
        Component::Normal(_) => 3,
    }
}

fn component_order(a: &Component, b: &Component) -> (r: Order)
    ensures
        match r {
            Order::Less => part_before()(a@, b@),
            Order::Same => a@ == b@,
            Order::Greater => part_before()(b@, a@),
        },
{
    let x: u8 = component_rank(a);
    let y: u8 = component_rank(b);
    if x < y {
        Order::Less
    } else if y < x {
        Order::Greater
    } else {
        match (a, b) {
            (Component::Normal(m), Component::Normal(n)) => m.order(n),
            _ => Order::Same,
        }
    }
}

proof fn lemma_part_before()
    ensures
        forall|x: Part| !#[trigger] part_before()(x, x),
        forall|x: Part, y: Part, z: Part| #[trigger]
            part_before()(x, y) && #[trigger] part_before()(y, z) ==> part_before()(x, z),
        forall|x: Part, y: Part| #[trigger] part_before()(x, y) || x == y || part_before()(y, x),
{
    assert forall|x: Part, y: Part| #[trigger] part_before()(x, y) || x == y || part_before()(
        y,
        x,
    ) by {
        if let (Part::Normal(a), Part::Normal(b)) = (x, y) {
            lemma_lex_total(a, b, char_before(), 0);
        }
    }
    assert forall|x: Part| !#[trigger] part_before()(x, x) by {
        if let Part::Normal(a) = x {
            lemma_lex_irreflexive(a, char_before());
        }
    }
    assert forall|x: Part, y: Part, z: Part| #[trigger]
        part_before()(x, y) && #[trigger] part_before()(y, z) implies part_before()(x, z) by {
        if let (Part::Normal(a), Part::Normal(b), Part::Normal(c)) = (x, y, z) {
            lemma_lex_transitive(a, b, c, char_before());
        }
    }
}

/// Paths are ordered component by component: the root first, then `.`, `..` and the names.
impl Key for Path {
    type S = Seq<Part>;

    open spec fn key(self) -> Seq<Part> {
        self@
    }

    open spec fn before(a: Seq<Part>, b: Seq<Part>) -> bool {
        lex_before(a, b, part_before())
    }

    proof fn before_irreflexive(a: Seq<Part>) {
        lemma_part_before();
        lemma_lex_irreflexive(a, part_before());
    }

    proof fn before_transitive(a: Seq<Part>, b: Seq<Part>, c: Seq<Part>) {
        lemma_part_before();
        lemma_lex_transitive(a, b, c, part_before());
    }

    proof fn before_total(a: Seq<Part>, b: Seq<Part>) {
        lemma_part_before();
        lemma_lex_total(a, b, part_before(), 0);
    }

    fn order(&self, other: &Self) -> (r: Order) {
        let mut i: usize = 0;
        let n: usize = self.components.len();
        let m: usize = other.components.len();
        while i < n && i < m
            invariant
                n == self@.len(),
                m == other@.len(),
                i <= n,
                i <= m,
                forall|j: int| 0 <= j < i ==> self@[j] == other@[j],
            decreases n - i,
        {
            match component_order(&self.components[i], &other.components[i]) {
                Order::Less => {
                    assert(lex_at(self@, other@, part_before(), i as int));
                    return Order::Less;
                },
                Order::Greater => {
                    assert(lex_at(other@, self@, part_before(), i as int));
                    return Order::Greater;
                },
                Order::Same => {
                    assert(self@[i as int] == other@[i as int]);
                },
            }
            i = i + 1;
        }
        if i < m {
            assert(lex_at(self@, other@, part_before(), i as int));
            Order::Less
        } else if i < n {
            assert(lex_at(other@, self@, part_before(), i as int));
            Order::Greater
        } else {
            assert(self@ =~= other@);
            Order::Same
        }
    }
}

/// The path to `path` as seen from the directory `base`.
pub fn relativize_path(base: &Path, path: &Path) -> (r: Path)
    ensures
        r@ == relative_parts(base@, path@),
{
    let n: usize = path.components.len();
    let m: usize = base.components.len();
    let mut i: usize = 0;
    proof {
        assert(path@.skip(0) =~= path@);
        assert(base@.skip(0) =~= base@);
    }
    while i < n && i < m && same_component(&path.components[i], &base.components[i])
        invariant
            n == path@.len(),
            m == base@.len(),
            i <= n,
            i <= m,
            common_len(path@, base@) == i + common_len(path@.skip(i as int), base@.skip(i as int)),
        decreases n - i,
    {
        proof {
            assert(path@.skip(i as int).skip(1) =~= path@.skip(i + 1));
            assert(base@.skip(i as int).skip(1) =~= base@.skip(i + 1));
            assert(path@.skip(i as int)[0] == path@[i as int]);
            assert(base@.skip(i as int)[0] == base@[i as int]);
        }
        i = i + 1;
    }
    let ghost k = i as int;
    proof {
        if i < n && i < m {
            assert(path@.skip(k)[0] == path@[k]);
            assert(base@.skip(k)[0] == base@[k]);
        }
        assert(common_len(path@, base@) == k);
    }
    let mut components: Vec<Component> = Vec::new();
    let ghost all = steps(base@.skip(k), path@.skip(k));
    assert(parts_of(components@) + all =~= all);
    while i < n && i < m && is_current(&base.components[i])
        invariant
            n == path@.len(),
            m == base@.len(),
            i <= n,
            i <= m,
            all == parts_of(components@) + steps(base@.skip(i as int), path@.skip(i as int)),
        decreases n - i,
    {
        proof {
            assert(path@.skip(i as int).skip(1) =~= path@.skip(i + 1));
            assert(base@.skip(i as int).skip(1) =~= base@.skip(i + 1));
            assert(path@.skip(i as int)[0] == path@[i as int]);
            assert(base@.skip(i as int)[0] == base@[i as int]);
        }
        let ghost before = parts_of(components@);
        components.push(path.components[i].clone());
        proof {
            assert(parts_of(components@) =~= before.push(path@[i as int]));
            assert(all =~= parts_of(components@) + steps(base@.skip(i + 1), path@.skip(i + 1)));
        }
        i = i + 1;
    }
    let ghost before = parts_of(components@);
    let ghost rest = steps(base@.skip(i as int), path@.skip(i as int));
    proof {
        if i < n && i < m {
            assert(base@.skip(i as int)[0] == base@[i as int]);
        }
        assert(rest =~= parents((m - i) as nat) + path@.skip(i as int));
    }
    for j in i..m
        invariant
            m == base@.len(),
            i <= j,
            i <= m,
            parts_of(components@) == before + parents((j - i) as nat),
    {
        let ghost prior = parts_of(components@);
        components.push(Component::ParentDir);
        assert(parts_of(components@) =~= prior.push(Part::Parent));
        assert(parts_of(components@) =~= before + parents((j + 1 - i) as nat));
    }
    for j in i..n
        invariant
            n == path@.len(),
            i <= m,
            i <= n,
            i <= j,
            parts_of(components@) == before + parents((m - i) as nat) + path@.subrange(
                i as int,
                j as int,
            ),
    {
        let ghost prior = parts_of(components@);
        components.push(path.components[j].clone());
        assert(parts_of(components@) =~= prior.push(path@[j as int]));
        assert(parts_of(components@) =~= before + parents((m - i) as nat) + path@.subrange(
            i as int,
            j + 1,
        ));
    }
    assert(parts_of(components@) =~= all);
    Path::from_components(components)
}

fn is_current(c: &Component) -> (r: bool)
    ensures
        r == (c@ is Current),
{
    match c {
        Component::CurDir => true,
        _ => false,
    }
}

/// A character that gives a glob part a meaning beyond its text.
pub open spec fn is_wildcard(c: char) -> bool {
    c == '*' || c == '?' || c == '{' || c == '}'
}

/// How many characters stand before the first wildcard.
pub open spec fn before_wildcard(glob: Seq<char>) -> nat
    decreases glob.len(),
{
    if glob.len() == 0 || is_wildcard(glob[0]) {
        0
    } else {
        1 + before_wildcard(glob.skip(1))
    }
}

/// Where the last separator of a text stands, or 0 if there is none.
pub open spec fn last_separator(text: Seq<char>) -> nat
    decreases text.len(),
{
    if text.len() == 0 {
        0
    } else if text.last() == '/' {
        (text.len() - 1) as nat
    } else {
        last_separator(text.drop_last())
    }
}

/// The longest run of whole parts at the start of a glob that match only themselves.
pub open spec fn literal_prefix(glob: Seq<char>) -> Seq<char> {
    let n = before_wildcard(glob);
    if n == glob.len() {
        glob
    } else {
        glob.take(last_separator(glob.take(n as int)) as int)
    }
}

/// The part of a glob, up to a separator, that can only match itself.
pub fn glob_literal_prefix<'a>(glob: &'a str) -> (r: &'a str)
    ensures
        r@ == literal_prefix(glob@),
{
    let chars = chars_of(glob);
    let mut i: usize = 0;
    let mut literal_end: usize = 0;
    proof {
        assert(glob@.skip(0) =~= glob@);
    }
    while i < chars.len()
        invariant
            chars@ == glob@,
            i <= chars@.len(),
            literal_end <= i,
            literal_end == last_separator(glob@.take(i as int)),
            before_wildcard(glob@) == i + before_wildcard(glob@.skip(i as int)),
        decreases chars@.len() - i,
    {
        let c: char = chars[i];
        proof {
            assert(glob@.skip(i as int)[0] == c);
            assert(glob@.skip(i as int).skip(1) =~= glob@.skip(i + 1));
            assert(glob@.take(i + 1).drop_last() =~= glob@.take(i as int));
            assert(glob@.take(i + 1).last() == c);
        }
        if c == '*' || c == '?' || c == '{' || c == '}' {
            return glob.substring_char(0, literal_end);
        }
        if c == '/' {
            literal_end = i;
        }
        i = i + 1;
    }
    assert(glob@.skip(i as int) =~= Seq::<char>::empty());
    glob
}

proof fn lemma_joined_descending(base: Seq<Part>, tail: Seq<Part>)
    requires
        descending(tail),
    ensures
        joined(base, tail) == base + tail,
    decreases tail.len(),
{
    if tail.len() > 0 {
        assert(descending(tail.drop_last()));
        lemma_joined_descending(base, tail.drop_last());
        assert(!(tail[tail.len() - 1] is Root));
        assert(base + tail =~= (base + tail.drop_last()).push(tail.last()));
    } else {
        assert(base + tail =~= base);
    }
}

/// An absolute path replaces what it is appended to.
proof fn lemma_joined_absolute(base: Seq<Part>, tail: Seq<Part>)
    requires
        canonical(tail),
        tail.len() > 0,
        tail[0] is Root,
    ensures
        joined(base, tail) == tail,
    decreases tail.len(),
{
    let head = tail.drop_last();
    if head.len() > 0 {
        assert(canonical(head));
        assert(head[0] is Root);
        lemma_joined_absolute(base, head);
        assert(!(tail[tail.len() - 1] is Root));
        assert(tail =~= head.push(tail.last()));
    } else {
        assert(tail =~= seq![Part::Root]);
    }
}

proof fn lemma_joined_add(base: Seq<Part>, a: Seq<Part>, b: Seq<Part>)
    ensures
        joined(base, a + b) == joined(joined(base, a), b),
    decreases b.len(),
{
    if b.len() > 0 {
        lemma_joined_add(base, a, b.drop_last());
        assert((a + b).drop_last() =~= a + b.drop_last());
        assert((a + b).last() == b.last());
    } else {
        assert(a + b =~= a);
    }
}

/// What is appended to a path is what is left when that path is taken off again.
pub proof fn strip_prefix_undoes_join(base: Seq<Part>, tail: Seq<Part>)
    requires
        descending(tail),
    ensures
        base.is_prefix_of(joined(base, tail)),
        joined(base, tail).skip(base.len() as int) == tail,
{
    lemma_joined_descending(base, tail);
    assert(base =~= (base + tail).subrange(0, base.len() as int));
    assert((base + tail).skip(base.len() as int) =~= tail);
}

/// Appending what was taken off gives the path back.
pub proof fn join_undoes_strip_prefix(base: Seq<Part>, path: Seq<Part>)
    requires
        base.is_prefix_of(path),
        descending(path.skip(base.len() as int)),
    ensures
        joined(base, path.skip(base.len() as int)) == path,
{
    lemma_joined_descending(base, path.skip(base.len() as int));
    assert forall|i: int| 0 <= i < base.len() implies base[i] == path[i] by {
        assert(path.subrange(0, base.len() as int)[i] == path[i]);
    }
    assert(base + path.skip(base.len() as int) =~= path);
}

/// Where a walker who starts at `base` ends up after following `steps`: `..` leads one up.
pub open spec fn walked(base: Seq<Part>, steps: Seq<Part>) -> Seq<Part>
    decreases steps.len(),
{
    if steps.len() == 0 {
        base
    } else {
        let at = walked(base, steps.drop_last());
        if steps.last() is Parent {
            at.take(if at.len() > 0 {
                at.len() - 1
            } else {
                0
            })
        } else {
            push_part(at, steps.last())
        }
    }
}

/// A path without `.` and `..`.
pub open spec fn plain(parts: Seq<Part>) -> bool {
    &&& canonical(parts)
    &&& forall|i: int|
        0 <= i < parts.len() ==> !(#[trigger] parts[i] is Current) && !(parts[i] is Parent)
}

proof fn lemma_walked_add(base: Seq<Part>, a: Seq<Part>, b: Seq<Part>)
    ensures
        walked(base, a + b) == walked(walked(base, a), b),
    decreases b.len(),
{
    if b.len() > 0 {
        lemma_walked_add(base, a, b.drop_last());
        assert((a + b).drop_last() =~= a + b.drop_last());
        assert((a + b).last() == b.last());
    } else {
        assert(a + b =~= a);
    }
}

proof fn lemma_walked_plain(base: Seq<Part>, tail: Seq<Part>)
    requires
        forall|i: int| 0 <= i < tail.len() ==> !(#[trigger] tail[i] is Parent),
    ensures
        walked(base, tail) == joined(base, tail),
    decreases tail.len(),
{
    if tail.len() > 0 {
        lemma_walked_plain(base, tail.drop_last());
        assert(!(tail[tail.len() - 1] is Parent));
    }
}

proof fn lemma_walked_up(base: Seq<Part>, n: nat)
    requires
        n <= base.len(),
    ensures
        walked(base, parents(n)) == base.take(base.len() - n),
    decreases n,
{
    if n > 0 {
        lemma_walked_up(base, (n - 1) as nat);
        assert(parents(n).drop_last() =~= parents((n - 1) as nat));
        assert(parents(n).last() == Part::Parent);
        assert(base.take(base.len() - n + 1).take(base.len() - n) =~= base.take(base.len() - n));
    } else {
        assert(base.take(base.len() as int) =~= base);
    }
}

proof fn lemma_common_len(a: Seq<Part>, b: Seq<Part>)
    ensures
        common_len(a, b) <= a.len(),
        common_len(a, b) <= b.len(),
        a.take(common_len(a, b) as int) == b.take(common_len(a, b) as int),
    decreases a.len(),
{
    let n = common_len(a, b) as int;
    if a.len() == 0 || b.len() == 0 || a[0] != b[0] {
        assert(a.take(0) =~= b.take(0));
    } else {
        lemma_common_len(a.skip(1), b.skip(1));
        assert forall|i: int| 0 <= i < n implies a[i] == b[i] by {
            if i > 0 {
                assert(a.skip(1).take(n - 1)[i - 1] == b.skip(1).take(n - 1)[i - 1]);
                assert(a.skip(1)[i - 1] == a[i]);
                assert(b.skip(1)[i - 1] == b[i]);
            }
        }
        assert(a.take(n) =~= b.take(n));
    }
}

/// Following a relativized path from its base leads to the path that was relativized.
pub proof fn relative_path_leads_to_path(base: Seq<Part>, path: Seq<Part>)
    requires
        plain(base),
        plain(path),
    ensures
        walked(base, relative_parts(base, path)) == path,
{
    let n = common_len(path, base) as int;
    lemma_common_len(path, base);
    let up = parents((base.len() - n) as nat);
    let down = path.skip(n);
    let s = steps(base.skip(n), down);
    if base.len() > n {
        assert(base.skip(n)[0] == base[n]);
    }
    assert(s =~= up + down);
    assert forall|i: int| 0 <= i < down.len() implies !(#[trigger] down[i] is Parent)
        && !(down[i] is Current) by {
        assert(down[i] == path[n + i]);
    }
    if down.len() > 0 && down[0] is Root {
        assert(down[0] == path[n]);
        assert(n == 0);
        assert(down =~= path);
        lemma_joined_add(Seq::empty(), up, down);
        lemma_joined_absolute(joined(Seq::empty(), up), path);
        lemma_walked_plain(base, path);
        lemma_joined_absolute(base, path);
    } else {
        assert(descending(down)) by {
            assert forall|i: int| 0 <= i < down.len() implies !(#[trigger] down[i] is Root)
                && !(down[i] is Current) by {
                assert(down[i] == path[n + i]);
            }
        }
        assert(descending(s)) by {
            assert forall|i: int| 0 <= i < s.len() implies !(#[trigger] s[i] is Root) && !(
            s[i] is Current) by {
                if i >= up.len() {
                    assert(s[i] == down[i - up.len()]);
                }
            }
        }
        lemma_joined_descending(Seq::empty(), s);
        assert(Seq::<Part>::empty() + s =~= s);
        lemma_walked_add(base, up, down);
        lemma_walked_up(base, up.len());
        lemma_walked_plain(base.take(n), down);
        lemma_joined_descending(base.take(n), down);
        assert(base.take(n) + down =~= path) by {
            assert forall|i: int| 0 <= i < n implies base[i] == path[i] by {
                assert(base.take(n)[i] == path.take(n)[i]);
            }
        }
    }
}

proof fn lemma_before_wildcard(glob: Seq<char>)
    ensures
        before_wildcard(glob) <= glob.len(),
        forall|i: int|
            0 <= i < before_wildcard(glob) ==> !is_wildcard(#[trigger] glob[i]),
        before_wildcard(glob) < glob.len() ==> is_wildcard(glob[before_wildcard(glob) as int]),
    decreases glob.len(),
{
    if glob.len() > 0 && !is_wildcard(glob[0]) {
        let rest = glob.skip(1);
        lemma_before_wildcard(rest);
        assert forall|i: int| 0 <= i < before_wildcard(glob) implies !is_wildcard(
            #[trigger] glob[i],
        ) by {
            if i > 0 {
                assert(rest[i - 1] == glob[i]);
            }
        }
        if before_wildcard(glob) < glob.len() {
            assert(rest[before_wildcard(rest) as int] == glob[before_wildcard(glob) as int]);
        }
    }
}

proof fn lemma_last_separator(text: Seq<char>)
    ensures
        last_separator(text) <= text.len(),
        last_separator(text) > 0 ==> text[last_separator(text) as int] == '/' && last_separator(text)
            < text.len(),
        forall|i: int| last_separator(text) < i < text.len() ==> #[trigger] text[i] != '/',
    decreases text.len(),
{
    if text.len() > 0 && text.last() != '/' {
        let head = text.drop_last();
        lemma_last_separator(head);
        assert forall|i: int| last_separator(text) < i < text.len() implies #[trigger] text[i]
            != '/' by {
            if i < head.len() {
                assert(head[i] == text[i]);
            }
        }
    }
}

/// The literal part of a glob begins the glob and has no wildcard. It is the whole glob where that
/// has none; otherwise it ends before a separator, or is empty, and the part that follows it has the
/// first wildcard.
pub proof fn literal_prefixes_match_only_themselves(glob: Seq<char>)
    ensures
        ({
            let prefix = literal_prefix(glob);
            &&& prefix.len() <= glob.len()
            &&& prefix == glob.take(prefix.len() as int)
            &&& forall|i: int|
                0 <= i < prefix.len() ==> #[trigger] prefix[i] != '*' && prefix[i] != '?'
                    && prefix[i] != '{' && prefix[i] != '}'
            &&& (forall|i: int|
                0 <= i < glob.len() ==> #[trigger] glob[i] != '*' && glob[i] != '?' && glob[i] != '{'
                    && glob[i] != '}') ==> prefix == glob
            &&& prefix.len() < glob.len() && prefix.len() > 0 ==> glob[prefix.len() as int] == '/'
            &&& prefix.len() < glob.len() ==> exists|n: int|
                #![trigger glob[n]]
                prefix.len() <= n < glob.len() && (glob[n] == '*' || glob[n] == '?' || glob[n] == '{'
                    || glob[n] == '}') && forall|i: int| prefix.len() < i < n ==> #[trigger] glob[i]
                    != '/'
        }),
{
    let n = before_wildcard(glob);
    lemma_before_wildcard(glob);
    let head = glob.take(n as int);
    lemma_last_separator(head);
    let prefix = literal_prefix(glob);
    if n == glob.len() {
        assert(prefix =~= glob.take(prefix.len() as int));
    } else {
        let m = last_separator(head);
        assert(prefix =~= glob.take(prefix.len() as int));
        if m > 0 {
            assert(head[m as int] == glob[m as int]);
        }
        assert(is_wildcard(glob[n as int]));
        assert forall|i: int| prefix.len() < i < n implies #[trigger] glob[i] != '/' by {
            assert(head[i] == glob[i]);
        }
    }
    assert forall|i: int| 0 <= i < prefix.len() implies #[trigger] prefix[i] != '*' && prefix[i]
        != '?' && prefix[i] != '{' && prefix[i] != '}' by {
        assert(prefix[i] == glob[i]);
        assert(!is_wildcard(glob[i]));
    }
}

/// The parent of a path is the path without its last part. A root has none, nor has an empty path.
pub proof fn parents_lack_the_last_part(parts: Seq<Part>, part: Part)
    ensures
        !(part is Root) ==> parent_of(parts.push(part)) == Some(parts),
        part is Root ==> parent_of(parts.push(part)) is None,
        parent_of(Seq::empty()) is None,
{
    assert(parts.push(part).drop_last() =~= parts);
}

/// The text of a path that goes on by a part is the text so far, a separator unless the path so far
/// is empty or a root, and the text of the part.
pub proof fn texts_of_paths_grow_by_parts(parts: Seq<Part>, name: Seq<char>)
    ensures
        parts.len() > 0 && !(parts.last() is Root) ==> {
            &&& path_text(parts.push(Part::Normal(name))) == path_text(parts) + seq!['/'] + name
            &&& path_text(parts.push(Part::Parent)) == path_text(parts) + seq!['/', '.', '.']
            &&& path_text(parts.push(Part::Current)) == path_text(parts) + seq!['/', '.']
        },
        parts.len() == 0 || parts.last() is Root ==> {
            &&& path_text(parts.push(Part::Normal(name))) == path_text(parts) + name
            &&& path_text(parts.push(Part::Parent)) == path_text(parts) + seq!['.', '.']
            &&& path_text(parts.push(Part::Current)) == path_text(parts) + seq!['.']
        },
        path_text(Seq::empty()) == Seq::<char>::empty(),
        path_text(seq![Part::Root]) == seq!['/'],
{
    assert(parts.push(Part::Normal(name)).drop_last() =~= parts);
    assert(parts.push(Part::Parent).drop_last() =~= parts);
    assert(parts.push(Part::Current).drop_last() =~= parts);
    let root = seq![Part::Root];
    assert(root.drop_last() =~= Seq::<Part>::empty());
    assert(path_text(root.drop_last()) =~= Seq::<char>::empty());
    assert(path_text(root) =~= seq!['/']);
}

/// A path comes before every longer one that begins with it. Where two paths differ first, the root
/// comes before `.`, that before `..`, and that before names, which come by their characters.
pub proof fn paths_come_by_their_parts(
    start: Seq<Part>,
    x: Part,
    y: Part,
    a: Seq<Part>,
    b: Seq<Part>,
)
    ensures
        <Path as Key>::before(start, start.push(x) + a),
        x is Root && !(y is Root) ==> <Path as Key>::before(start.push(x) + a, start.push(y) + b),
        x is Current && (y is Parent || y is Normal) ==> <Path as Key>::before(
            start.push(x) + a,
            start.push(y) + b,
        ),
        x is Parent && y is Normal ==> <Path as Key>::before(start.push(x) + a, start.push(y) + b),
        x is Normal && y is Normal && <String as Key>::before(x->Normal_0, y->Normal_0)
            ==> <Path as Key>::before(start.push(x) + a, start.push(y) + b),
{
    let n = start.len() as int;
    let p = start.push(x) + a;
    let q = start.push(y) + b;
    assert(lex_at(start, p, part_before(), n));
    if part_before()(x, y) {
        assert(lex_at(p, q, part_before(), n));
    }
}

} // verus!
