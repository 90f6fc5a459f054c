//! Identifiers of the things that a project keeps track of.

use crate::order::{Key, Order};
use vstd::prelude::*;

verus! {

/// A worktree of the project.
#[derive(Clone, Copy, Debug, PartialEq, Eq, Hash, Structural)]
pub struct WorktreeId(pub usize);

impl Key for WorktreeId {
    type S = WorktreeId;

    open spec fn key(self) -> WorktreeId {
        self
    }

    open spec fn before(a: WorktreeId, b: WorktreeId) -> bool {
        a.0 < b.0
    }

    proof fn before_irreflexive(a: WorktreeId) {
    }

    proof fn before_transitive(a: WorktreeId, b: WorktreeId, c: WorktreeId) {
    }

    proof fn before_total(a: WorktreeId, b: WorktreeId) {
    }

    fn order(&self, other: &Self) -> (r: Order) {
        let r = self.0.order(&other.0);
        assert(r == Order::Less ==> Self::before(self.key(), other.key()));
        assert(r == Order::Greater ==> Self::before(other.key(), self.key()));
        r
    }
}

impl WorktreeId {
    /// The id that a message carries; ids wider than a machine word lose their upper bits.
    pub fn from_proto(id: u64) -> (r: Self)
        ensures
            r == WorktreeId(id as usize),
    {
        WorktreeId(
            #[verifier::truncate]
            (id as usize),
        )
    }

    pub fn to_proto(&self) -> (r: u64)
        ensures
            r == self.0 as u64,
    {
        self.0 as u64
    }

    pub fn to_usize(&self) -> (r: usize)
        ensures
            r == self.0,
    {
        self.0
    }
}

/// A language server, running or starting.
#[derive(Clone, Copy, Debug, PartialEq, Eq, Hash, Structural)]
pub struct LanguageServerId(pub usize);

impl Key for LanguageServerId {
    type S = LanguageServerId;

    open spec fn key(self) -> LanguageServerId {
        self
    }

    open spec fn before(a: LanguageServerId, b: LanguageServerId) -> bool {
        a.0 < b.0
    }

    proof fn before_irreflexive(a: LanguageServerId) {
    }

    proof fn before_transitive(a: LanguageServerId, b: LanguageServerId, c: LanguageServerId) {
    }

    proof fn before_total(a: LanguageServerId, b: LanguageServerId) {
    }

    fn order(&self, other: &Self) -> (r: Order) {
        let r = self.0.order(&other.0);
        assert(r == Order::Less ==> Self::before(self.key(), other.key()));
        assert(r == Order::Greater ==> Self::before(other.key(), self.key()));
        r
    }
}

/// A file or directory of a worktree.
#[derive(Clone, Copy, Debug, PartialEq, Eq, Hash, Structural)]
pub struct ProjectEntryId(pub usize);

impl Key for ProjectEntryId {
    type S = ProjectEntryId;

    open spec fn key(self) -> ProjectEntryId {
        self
    }

    open spec fn before(a: ProjectEntryId, b: ProjectEntryId) -> bool {
        a.0 < b.0
    }

    proof fn before_irreflexive(a: ProjectEntryId) {
    }

    proof fn before_transitive(a: ProjectEntryId, b: ProjectEntryId, c: ProjectEntryId) {
    }

    proof fn before_total(a: ProjectEntryId, b: ProjectEntryId) {
    }

    fn order(&self, other: &Self) -> (r: Order) {
        let r = self.0.order(&other.0);
        assert(r == Order::Less ==> Self::before(self.key(), other.key()));
        assert(r == Order::Greater ==> Self::before(other.key(), self.key()));
        r
    }
}

impl ProjectEntryId {
    /// The greatest id.
    pub fn max() -> (r: Self)
        ensures
            r.0 == usize::MAX,
    {
        ProjectEntryId(usize::MAX)
    }

    /// The next id that a counter hands out; after the greatest comes 0 again.
    pub fn new(counter: &mut usize) -> (r: Self)
        ensures
            r.0 == *old(counter),
            *final(counter) == (if *old(counter) == usize::MAX {
                0usize
            } else {
                (*old(counter) + 1) as usize
            }),
    {
        let id: usize = *counter;
        *counter = if id == usize::MAX {
            0
        } else {
            id + 1
        };
        ProjectEntryId(id)
    }

    /// The id that a message carries; ids wider than a machine word lose their upper bits.
    pub fn from_proto(id: u64) -> (r: Self)
        ensures
            r == ProjectEntryId(id as usize),
    {
        ProjectEntryId(
            #[verifier::truncate]
            (id as usize),
        )
    }

    pub fn to_proto(&self) -> (r: u64)
        ensures
            r == self.0 as u64,
    {
        self.0 as u64
    }

    pub fn to_usize(&self) -> (r: usize)
        ensures
            r == self.0,
    {
        self.0
    }
}

/// A participant of a shared project.
#[derive(Clone, Copy, Debug, PartialEq, Eq, Hash, Structural)]
pub struct PeerId(pub u64);

impl Key for PeerId {
    type S = PeerId;

    open spec fn key(self) -> PeerId {
        self
    }

    open spec fn before(a: PeerId, b: PeerId) -> bool {
        a.0 < b.0
    }

    proof fn before_irreflexive(a: PeerId) {
    }

    proof fn before_transitive(a: PeerId, b: PeerId, c: PeerId) {
    }

    proof fn before_total(a: PeerId, b: PeerId) {
    }

    fn order(&self, other: &Self) -> (r: Order) {
        let r = self.0.order(&other.0);
        assert(r == Order::Less ==> Self::before(self.key(), other.key()));
        assert(r == Order::Greater ==> Self::before(other.key(), self.key()));
        r
    }
}

/// A buffer or worktree entity that handles refer to.
#[derive(Clone, Copy, Debug, PartialEq, Eq, Hash, Structural)]
pub struct EntityId(pub u64);

impl Key for EntityId {
    type S = EntityId;

    open spec fn key(self) -> EntityId {
        self
    }

    open spec fn before(a: EntityId, b: EntityId) -> bool {
        a.0 < b.0
    }

    proof fn before_irreflexive(a: EntityId) {
    }

    proof fn before_transitive(a: EntityId, b: EntityId, c: EntityId) {
    }

    proof fn before_total(a: EntityId, b: EntityId) {
    }

    fn order(&self, other: &Self) -> (r: Order) {
        let r = self.0.order(&other.0);
        assert(r == Order::Less ==> Self::before(self.key(), other.key()));
        assert(r == Order::Greater ==> Self::before(other.key(), self.key()));
        r
    }
}

/// The name of a language server.
#[derive(Debug, PartialEq, Eq, Hash)]
pub struct LanguageServerName(pub String);

impl View for LanguageServerName {
    type V = Seq<char>;

    open spec fn view(&self) -> Seq<char> {
        self.0@
    }
}

impl Clone for LanguageServerName {
    fn clone(&self) -> (r: Self)
        ensures
            r == *self,
    {
        LanguageServerName(self.0.clone())
    }
}

impl Key for LanguageServerName {
    type S = Seq<char>;

    open spec fn key(self) -> Seq<char> {
        self.0@
    }

    open spec fn before(a: Seq<char>, b: Seq<char>) -> bool {
        <String as Key>::before(a, b)
    }

    proof fn before_irreflexive(a: Seq<char>) {
        <String as Key>::before_irreflexive(a);
    }

    proof fn before_transitive(a: Seq<char>, b: Seq<char>, c: Seq<char>) {
        <String as Key>::before_transitive(a, b, c);
    }

    proof fn before_total(a: Seq<char>, b: Seq<char>) {
        <String as Key>::before_total(a, b);
    }

    fn order(&self, other: &Self) -> (r: Order) {
        self.0.order(&other.0)
    }
}

/// An entry id survives being sent to a peer and back.
pub proof fn entry_id_survives_the_wire(id: ProjectEntryId)
    ensures
        ProjectEntryId((id.0 as u64) as usize) == id,
{
}

/// A worktree id survives being sent to a peer and back.
pub proof fn worktree_id_survives_the_wire(id: WorktreeId)
    ensures
        WorktreeId((id.0 as u64) as usize) == id,
{
}

} // verus!
