//! The texts of buffers that language servers know.

use crate::ids::LanguageServerId;
use crate::map::SortedMap;
use crate::model::{Buffer, TextSnapshot};
use crate::project::{LspBufferSnapshot, Project, ProjectError};
use vstd::prelude::*;

verus! {

/// How many versions a server may lag behind before its older texts are dropped.
pub const OLD_VERSIONS_TO_RETAIN: i32 = 10;

/// The texts that each server knows of each buffer.
pub open spec fn snapshot_map(
    m: SortedMap<u64, SortedMap<LanguageServerId, Vec<LspBufferSnapshot>>>,
) -> Map<(u64, LanguageServerId), Seq<LspBufferSnapshot>> {
    Map::new(
        |k: (u64, LanguageServerId)| m@.contains_key(k.0) && m@[k.0]@.contains_key(k.1),
        |k: (u64, LanguageServerId)| m@[k.0]@[k.1]@,
    )
}

/// There is a text, and each has a greater version than the one before it.
pub open spec fn versions_ascend(s: Seq<LspBufferSnapshot>) -> bool {
    &&& s.len() > 0
    &&& forall|i: int, j: int|
        #![trigger s[i], s[j]]
        0 <= i < j < s.len() ==> s[i].version < s[j].version
}

/// The index of the text with a version.
pub open spec fn version_at(s: Seq<LspBufferSnapshot>, version: i32, i: int) -> bool {
    0 <= i < s.len() && s[i].version == version
}

/// A text that is still needed once a server has spoken of `version`.
pub open spec fn is_recent(version: i32) -> spec_fn(LspBufferSnapshot) -> bool {
    |s: LspBufferSnapshot| s.version + OLD_VERSIONS_TO_RETAIN >= version
}

/// How many texts are too old to be needed once a server has spoken of `version`.
pub open spec fn outdated(s: Seq<LspBufferSnapshot>, version: i32) -> nat
    decreases s.len(),
{
    if s.len() == 0 || s[0].version + OLD_VERSIONS_TO_RETAIN >= version {
        0
    } else {
        1 + outdated(s.skip(1), version)
    }
}

impl Project {
    /// Each server's texts of each buffer have ascending versions.
    pub open spec fn snapshots_ordered(self) -> bool {
        forall|k: (u64, LanguageServerId)| #[trigger]
            snapshot_map(self.buffer_snapshots).contains_key(k) ==> versions_ascend(
                snapshot_map(self.buffer_snapshots)[k],
            )
    }

    /// Makes `snapshots` the texts that a server knows of a buffer.
    pub(crate) fn put_snapshots(
        &mut self,
        buffer_id: u64,
        server_id: LanguageServerId,
        snapshots: Vec<LspBufferSnapshot>,
    )
        ensures
            snapshot_map(final(self).buffer_snapshots) == snapshot_map(
                old(self).buffer_snapshots,
            ).insert((buffer_id, server_id), snapshots@),
            *final(self) == (Project {
                buffer_snapshots: final(self).buffer_snapshots,
                ..*old(self)
            }),
    {
        let mut inner = match self.buffer_snapshots.remove(&buffer_id) {
            Some(inner) => inner,
            None => SortedMap::new(),
        };
        inner.insert(server_id, snapshots);
        self.buffer_snapshots.insert(buffer_id, inner);
        assert(snapshot_map(self.buffer_snapshots) =~= snapshot_map(
            old(self).buffer_snapshots,
        ).insert((buffer_id, server_id), snapshots@));
    }

    /// Takes out the texts that a server knows of a buffer.
    pub(crate) fn take_snapshots(&mut self, buffer_id: u64, server_id: LanguageServerId) -> (r:
        Option<Vec<LspBufferSnapshot>>)
        ensures
            snapshot_map(final(self).buffer_snapshots) == snapshot_map(
                old(self).buffer_snapshots,
            ).remove((buffer_id, server_id)),
            *final(self) == (Project {
                buffer_snapshots: final(self).buffer_snapshots,
                ..*old(self)
            }),
            match r {
                Some(v) => snapshot_map(old(self).buffer_snapshots).contains_key(
                    (buffer_id, server_id),
                ) && v@ == snapshot_map(old(self).buffer_snapshots)[(buffer_id, server_id)],
                None => !snapshot_map(old(self).buffer_snapshots).contains_key(
                    (buffer_id, server_id),
                ),
            },
    {
        let r = match self.buffer_snapshots.remove(&buffer_id) {
            Some(mut inner) => {
                let r = inner.remove(&server_id);
                self.buffer_snapshots.insert(buffer_id, inner);
                r
            },
            None => None,
        };
        assert(snapshot_map(self.buffer_snapshots) =~= snapshot_map(
            old(self).buffer_snapshots,
        ).remove((buffer_id, server_id)));
        r
    }

    /// Forgets all texts of a buffer.
    pub(crate) fn forget_snapshots(&mut self, buffer_id: u64)
        ensures
            snapshot_map(final(self).buffer_snapshots) == without_buffer(
                snapshot_map(old(self).buffer_snapshots),
                buffer_id,
            ),
            *final(self) == (Project {
                buffer_snapshots: final(self).buffer_snapshots,
                ..*old(self)
            }),
    {
        self.buffer_snapshots.remove(&buffer_id);
        assert(snapshot_map(self.buffer_snapshots) =~= without_buffer(
            snapshot_map(old(self).buffer_snapshots),
            buffer_id,
        ));
    }

    /// The text of a buffer that a server means by a version. Texts that are more than ten versions
    /// older are dropped. Without a version the current text is meant.
    pub fn buffer_snapshot_for_lsp_version(
        &mut self,
        buffer: &Buffer,
        server_id: LanguageServerId,
        version: Option<i32>,
    ) -> (r: Result<TextSnapshot, ProjectError>)
        requires
            old(self).snapshots_ordered(),
        ensures
            final(self).snapshots_ordered(),
            *final(self) == (Project {
                buffer_snapshots: final(self).buffer_snapshots,
                ..*old(self)
            }),
            ({
                let before = snapshot_map(old(self).buffer_snapshots);
                let after = snapshot_map(final(self).buffer_snapshots);
                let key = (buffer.remote_id, server_id);
                match version {
                    None => after == before && r == Ok::<TextSnapshot, ProjectError>(
                        buffer.snapshot,
                    ),
                    Some(v) => if !before.contains_key(key) {
                        after == before && r == Err::<TextSnapshot, ProjectError>(
                            ProjectError::UnknownBuffer,
                        )
                    } else if forall|i: int| !version_at(before[key], v, i) {
                        after == before && r == Err::<TextSnapshot, ProjectError>(
                            ProjectError::UnknownVersion,
                        )
                    } else {
                        &&& r is Ok
                        &&& exists|i: int|
                            version_at(before[key], v, i) && r->Ok_0 == before[key][i].snapshot
                        &&& after == before.insert(
                            key,
                            before[key].skip(outdated(before[key], v) as int),
                        )
                    },
                }
            }),
    {
        let ghost before = snapshot_map(self.buffer_snapshots);
        let key: (u64, LanguageServerId) = (buffer.remote_id, server_id);
        match version {
            None => {
                assert(snapshot_map(self.buffer_snapshots) =~= before);
                Ok(buffer.snapshot.clone())
            },
            Some(version) => {
                let mut snapshots = match self.take_snapshots(buffer.remote_id, server_id) {
                    Some(snapshots) => snapshots,
                    None => {
                        assert(before.remove(key) =~= before);
                        return Err(ProjectError::UnknownBuffer);
                    },
                };
                let ghost s = snapshots@;
                assert(s == before[key]);
                assert(versions_ascend(s));
                match find_version(&snapshots, version) {
                    None => {
                        self.put_snapshots(buffer.remote_id, server_id, snapshots);
                        assert(snapshot_map(self.buffer_snapshots) =~= before);
                        Err(ProjectError::UnknownVersion)
                    },
                    Some(ix) => {
                        let found = snapshots[ix].snapshot.clone();
                        proof {
                            lemma_outdated(s, version, ix as int);
                        }
                        let n = count_outdated(&snapshots, version);
                        let recent = snapshots.split_off(n);
                        assert(recent@ =~= s.skip(n as int));
                        assert forall|i: int, j: int|
                            #![trigger recent@[i], recent@[j]]
                            0 <= i < j < recent@.len() implies recent@[i].version
                            < recent@[j].version by {
                            assert(s[n + i].version < s[n + j].version);
                        }
                        self.put_snapshots(buffer.remote_id, server_id, recent);
                        assert(version_at(s, version, ix as int));
                        assert(snapshot_map(self.buffer_snapshots) =~= before.insert(
                            key,
                            s.skip(outdated(s, version) as int),
                        ));
                        Ok(found)
                    },
                }
            },
        }
    }
}

/// The texts of all buffers but one.
pub open spec fn without_buffer(
    m: Map<(u64, LanguageServerId), Seq<LspBufferSnapshot>>,
    buffer_id: u64,
) -> Map<(u64, LanguageServerId), Seq<LspBufferSnapshot>> {
    m.remove_keys(Set::new(|k: (u64, LanguageServerId)| k.0 == buffer_id))
}

proof fn lemma_outdated(s: Seq<LspBufferSnapshot>, version: i32, ix: int)
    requires
        versions_ascend(s),
        version_at(s, version, ix),
    ensures
        outdated(s, version) <= ix,
    decreases s.len(),
{
    if s.len() > 0 && s[0].version + OLD_VERSIONS_TO_RETAIN < version {
        let t = s.skip(1);
        assert(ix > 0);
        assert(t[ix - 1] == s[ix]);
        assert forall|i: int, j: int|
            #![trigger t[i], t[j]]
            0 <= i < j < t.len() implies t[i].version < t[j].version by {
            assert(s[i + 1].version < s[j + 1].version);
        }
        lemma_outdated(t, version, ix - 1);
    }
}

/// Every text that is dropped is more than ten versions older, and no other is dropped.
pub proof fn dropped_texts_are_outdated(s: Seq<LspBufferSnapshot>, version: i32)
    requires
        versions_ascend(s),
    ensures
        outdated(s, version) <= s.len(),
        forall|i: int|
            0 <= i < s.len() ==> ((i < outdated(s, version)) <==> !#[trigger] is_recent(version)(
                s[i],
            )),
    decreases s.len(),
{
    if s[0].version + OLD_VERSIONS_TO_RETAIN < version {
        let t = s.skip(1);
        if t.len() > 0 {
            assert forall|i: int, j: int|
                #![trigger t[i], t[j]]
                0 <= i < j < t.len() implies t[i].version < t[j].version by {
                assert(s[i + 1].version < s[j + 1].version);
            }
            dropped_texts_are_outdated(t, version);
        }
        assert forall|i: int| 0 <= i < s.len() implies ((i < outdated(s, version)) <==> !#[trigger] is_recent(
            version,
        )(s[i])) by {
            if i > 0 {
                assert(t[i - 1] == s[i]);
                assert((i - 1 < outdated(t, version)) <==> !is_recent(version)(t[i - 1]));
            }
        }
    } else {
        assert forall|i: int| 0 <= i < s.len() implies #[trigger] is_recent(version)(s[i]) by {
            if i > 0 {
                assert(s[0].version < s[i].version);
            }
        }
    }
}

/// Looks a version up by halving the range in which it can be.
fn find_version(snapshots: &Vec<LspBufferSnapshot>, version: i32) -> (r: Option<usize>)
    requires
        versions_ascend(snapshots@),
    ensures
        match r {
            Some(i) => version_at(snapshots@, version, i as int),
            None => forall|i: int| !version_at(snapshots@, version, i),
        },
{
    let mut low: usize = 0;
    let mut high: usize = snapshots.len();
    while low < high
        invariant
            versions_ascend(snapshots@),
            low <= high <= snapshots@.len(),
            forall|i: int| 0 <= i < low ==> (#[trigger] snapshots@[i]).version < version,
            forall|i: int|
                high <= i < snapshots@.len() ==> (#[trigger] snapshots@[i]).version > version,
        decreases high - low,
    {
        let mid: usize = low + (high - low) / 2;
        let v: i32 = snapshots[mid].version;
        if v == version {
            return Some(mid);
        }
        if v < version {
            assert forall|i: int| 0 <= i < mid + 1 implies (#[trigger] snapshots@[i]).version
                < version by {
                if i < mid {
                    assert(snapshots@[i].version < snapshots@[mid as int].version);
                }
            }
            low = mid + 1;
        } else {
            assert forall|i: int| mid <= i < snapshots@.len() implies (
            #[trigger] snapshots@[i]).version > version by {
                if i > mid {
                    assert(snapshots@[mid as int].version < snapshots@[i].version);
                }
            }
            high = mid;
        }
    }
    None
}

fn count_outdated(snapshots: &Vec<LspBufferSnapshot>, version: i32) -> (r: usize)
    ensures
        r == outdated(snapshots@, version),
        r <= snapshots@.len(),
{
    let mut i: usize = 0;
    assert(snapshots@.skip(0) =~= snapshots@);
    while i < snapshots.len() && (snapshots[i].version as i64) + (OLD_VERSIONS_TO_RETAIN as i64) < (
    version as i64)
        invariant
            i <= snapshots@.len(),
            outdated(snapshots@, version) == i + outdated(snapshots@.skip(i as int), version),
        decreases snapshots@.len() - i,
    {
        assert(snapshots@.skip(i as int)[0] == snapshots@[i as int]);
        assert(snapshots@.skip(i as int).skip(1) =~= snapshots@.skip(i + 1));
        i = i + 1;
    }
    proof {
        if i < snapshots@.len() {
            assert(snapshots@.skip(i as int)[0] == snapshots@[i as int]);
        }
    }
    i
}

/// A text is still needed exactly if it is at most ten versions older than the one a server has
/// spoken of.
pub proof fn ten_versions_are_kept(s: Seq<LspBufferSnapshot>, version: i32)
    requires
        versions_ascend(s),
    ensures
        forall|i: int|
            0 <= i < s.len() ==> (i < outdated(s, version) <==> (#[trigger] s[i]).version + 10
                < version),
{
    dropped_texts_are_outdated(s, version);
    assert forall|i: int| 0 <= i < s.len() implies (i < outdated(s, version) <==> (
    #[trigger] s[i]).version + 10 < version) by {
        assert(is_recent(version)(s[i]) == (s[i].version + 10 >= version));
    }
}

/// Forgetting a buffer leaves no text of it, for whatever server, and all texts of the others.
pub proof fn only_the_buffer_is_forgotten(
    m: Map<(u64, LanguageServerId), Seq<LspBufferSnapshot>>,
    buffer_id: u64,
    key: (u64, LanguageServerId),
)
    ensures
        key.0 == buffer_id ==> !without_buffer(m, buffer_id).contains_key(key),
        key.0 != buffer_id ==> without_buffer(m, buffer_id).contains_key(key) == m.contains_key(key),
        key.0 != buffer_id && m.contains_key(key) ==> without_buffer(m, buffer_id)[key] == m[key],
{
}

} // verus!
