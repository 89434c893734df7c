//! The snapshot index: named roots in the order of their creation.

use crate::hextext::{hex_text, hex_value, is_hex_text};
use crate::storage::SnapshotInfo;
use vstd::prelude::*;

verus! {

/// One snapshot as it is kept in the index.
#[derive(Debug, Clone)]
pub struct SnapshotEntry {
    /// Root hash as hexadecimal text.
    pub root: String,
    /// Creation time, seconds since the Unix epoch.
    pub timestamp: u64,
    /// Optional description.
    pub description: Option<String>,
}

/// The snapshots of one backend.
pub struct SnapshotManager {
    /// Where the index is kept.
    pub path: String,
    /// The snapshots, oldest first.
    pub snapshots: Vec<SnapshotEntry>,
}

/// `text` is the hexadecimal form of a hash: 64 hexadecimal digits.
pub open spec fn is_hash_text(text: Seq<char>) -> bool {
    is_hex_text(text) && text.len() == 64
}

/// The hash that the first entry with id `id` stands for; `None` where no
/// entry has this id or the id is not the text of a hash.
pub open spec fn root_of(entries: Seq<SnapshotEntry>, id: Seq<char>) -> Option<Seq<u8>> {
    if (exists|i: int| 0 <= i < entries.len() && (#[trigger] entries[i]).root@ == id)
        && is_hash_text(id) {
        Some(hex_value(id))
    } else {
        None
    }
}

/// The hash that the newest entry stands for.
pub open spec fn latest_root(entries: Seq<SnapshotEntry>) -> Option<Seq<u8>> {
    if entries.len() > 0 && is_hash_text(entries.last().root@) {
        Some(hex_value(entries.last().root@))
    } else {
        None
    }
}

/// The entries without those whose id is `id`, in their order.
pub open spec fn without(entries: Seq<SnapshotEntry>, id: Seq<char>) -> Seq<SnapshotEntry>
    decreases entries.len(),
{
    if entries.len() == 0 {
        entries
    } else if entries.last().root@ == id {
        without(entries.drop_last(), id)
    } else {
        without(entries.drop_last(), id).push(entries.last())
    }
}

/// Removing entries never makes the list longer, and it is shorter exactly
/// when an entry had the id.
pub proof fn lemma_without_len(entries: Seq<SnapshotEntry>, id: Seq<char>)
    ensures
        without(entries, id).len() <= entries.len(),
        without(entries, id).len() < entries.len() <==> exists|i: int|
            0 <= i < entries.len() && (#[trigger] entries[i]).root@ == id,
        forall|j: int|
            0 <= j < without(entries, id).len() ==> (#[trigger] without(entries, id)[j]).root@
                != id,
    decreases entries.len(),
{
    if entries.len() > 0 {
        let front = entries.drop_last();
        lemma_without_len(front, id);
        if exists|i: int| 0 <= i < front.len() && (#[trigger] front[i]).root@ == id {
            let i = choose|i: int| 0 <= i < front.len() && (#[trigger] front[i]).root@ == id;
            assert(entries[i].root@ == id);
        }
        if exists|i: int| 0 <= i < entries.len() && (#[trigger] entries[i]).root@ == id {
            let i = choose|i: int| 0 <= i < entries.len() && (#[trigger] entries[i]).root@ == id;
            if i < front.len() {
                assert(front[i].root@ == id);
            }
        }
        if entries.last().root@ == id {
            assert(entries[entries.len() - 1].root@ == id);
        }
    }
}

/// Copies an entry.
fn copy_entry(entry: &SnapshotEntry) -> (copy: SnapshotEntry)
    ensures
        copy == *entry,
{
    let description = match &entry.description {
        Some(text) => Some(text.clone()),
        None => None,
    };
    SnapshotEntry { root: entry.root.clone(), timestamp: entry.timestamp, description }
}

impl SnapshotManager {
    /// The index kept at `path`, with the snapshots that were loaded from
    /// there.
    pub fn new(path: String, snapshots: Vec<SnapshotEntry>) -> (m: SnapshotManager)
        ensures
            m.path == path,
            m.snapshots == snapshots,
    {
        SnapshotManager { path, snapshots }
    }

    /// Appends a snapshot of `root_hash` taken at `timestamp` and returns
    /// its id, the root hash in hexadecimal.
    pub fn create(
        &mut self,
        root_hash: crate::blob::Hash,
        timestamp: u64,
        description: Option<&str>,
    ) -> (id: String)
        ensures
            id@ == hex_text(root_hash@),
            final(self).path == old(self).path,
            final(self).snapshots@.len() == old(self).snapshots@.len() + 1,
            final(self).snapshots@.drop_last() == old(self).snapshots@,
            final(self).snapshots@.last().root@ == hex_text(root_hash@),
            final(self).snapshots@.last().timestamp == timestamp,
            match description {
                Some(text) => final(self).snapshots@.last().description matches Some(d) && d@
                    == text@,
                None => final(self).snapshots@.last().description is None,
            },
    {
        let described = match description {
            Some(text) => Some(text.to_owned()),
            None => None,
        };
        let entry = SnapshotEntry { root: root_hash.to_hex(), timestamp, description: described };
        let ghost before = self.snapshots@;
        self.snapshots.push(entry);
        assert(self.snapshots@.drop_last() =~= before);
        root_hash.to_hex()
    }

    /// The snapshots, oldest first.
    pub fn list(&self) -> (infos: Vec<SnapshotInfo>)
        ensures
            infos@.len() == self.snapshots@.len(),
            forall|i: int|
                0 <= i < infos@.len() ==> (#[trigger] infos@[i]).id == self.snapshots@[i].root
                    && infos@[i].timestamp == self.snapshots@[i].timestamp && infos@[i].description
                    == self.snapshots@[i].description,
    {
        let mut infos: Vec<SnapshotInfo> = Vec::new();
        let mut i: usize = 0;
        while i < self.snapshots.len()
            invariant
                i <= self.snapshots@.len(),
                infos@.len() == i,
                forall|k: int|
                    0 <= k < i ==> (#[trigger] infos@[k]).id == self.snapshots@[k].root
                        && infos@[k].timestamp == self.snapshots@[k].timestamp
                        && infos@[k].description == self.snapshots@[k].description,
            decreases self.snapshots@.len() - i,
        {
            let copy = copy_entry(&self.snapshots[i]);
            infos.push(
                SnapshotInfo {
                    id: copy.root,
                    timestamp: copy.timestamp,
                    description: copy.description,
                },
            );
            i += 1;
        }
        infos
    }

    /// The root hash of the snapshot with id `snapshot_id`.
    pub fn get(&self, snapshot_id: &str) -> (r: Option<crate::blob::Hash>)
        ensures
            match r {
                Some(h) => root_of(self.snapshots@, snapshot_id@) == Some(h@),
                None => root_of(self.snapshots@, snapshot_id@) is None,
            },
    {
        let wanted = snapshot_id.to_owned();
        let mut i: usize = 0;
        while i < self.snapshots.len()
            invariant
                i <= self.snapshots@.len(),
                wanted@ == snapshot_id@,
                forall|k: int| 0 <= k < i ==> (#[trigger] self.snapshots@[k]).root@ != snapshot_id@,
            decreases self.snapshots@.len() - i,
        {
            if self.snapshots[i].root == wanted {
                return match crate::blob::Hash::from_hex(snapshot_id) {
                    Ok(h) => Some(h),
                    Err(_) => None,
                };
            }
            i += 1;
        }
        None
    }

    /// The root hash of the newest snapshot.
    pub fn latest(&self) -> (r: Option<crate::blob::Hash>)
        ensures
            match r {
                Some(h) => latest_root(self.snapshots@) == Some(h@),
                None => latest_root(self.snapshots@) is None,
            },
    {
        let n = self.snapshots.len();
        if n == 0 {
            return None;
        }
        match crate::blob::Hash::from_hex(self.snapshots[n - 1].root.as_str()) {
            Ok(h) => Some(h),
            Err(_) => None,
        }
    }

    /// Removes every snapshot with id `snapshot_id` and tells whether there
    /// was one. The other snapshots keep their order.
    pub fn delete(&mut self, snapshot_id: &str) -> (removed: bool)
        ensures
            final(self).path == old(self).path,
            final(self).snapshots@ == without(old(self).snapshots@, snapshot_id@),
            removed == (exists|i: int|
                0 <= i < old(self).snapshots@.len() && (#[trigger] old(self).snapshots@[i]).root@
                    == snapshot_id@),
    {
        let wanted = snapshot_id.to_owned();
        let mut kept: Vec<SnapshotEntry> = Vec::new();
        let mut i: usize = 0;
        while i < self.snapshots.len()
            invariant
                i <= self.snapshots@.len(),
                wanted@ == snapshot_id@,
                *self == *old(self),
                kept@ == without(self.snapshots@.subrange(0, i as int), snapshot_id@),
            decreases self.snapshots@.len() - i,
        {
            proof {
                let upto = self.snapshots@.subrange(0, i + 1);
                assert(upto.drop_last() =~= self.snapshots@.subrange(0, i as int));
                assert(upto.last() == self.snapshots@[i as int]);
            }
            if !(self.snapshots[i].root == wanted) {
                kept.push(copy_entry(&self.snapshots[i]));
            }
            i += 1;
        }
        proof {
            assert(self.snapshots@.subrange(0, i as int) =~= self.snapshots@);
            lemma_without_len(self.snapshots@, snapshot_id@);
        }
        let removed = kept.len() < self.snapshots.len();
        self.snapshots = kept;
        removed
    }

    /// Where the index is kept.
    pub fn path(&self) -> (p: &String)
        ensures
            *p == self.path,
    {
        &self.path
    }

    /// The entries of the index, oldest first.
    pub fn entries(&self) -> (e: &Vec<SnapshotEntry>)
        ensures
            *e == self.snapshots,
    {
        &self.snapshots
    }
}

/// A snapshot that was just created is found under its id, and the newest
/// snapshot is the one that was created last.
pub proof fn lemma_created_is_found(entries: Seq<SnapshotEntry>, h: crate::blob::Hash)
    requires
        entries.len() > 0,
        entries.last().root@ == hex_text(h@),
    ensures
        root_of(entries, hex_text(h@)) == Some(h@),
        latest_root(entries) == Some(h@),
{
    crate::blob::lemma_hash_hex_round_trip(h);
    assert(entries[entries.len() - 1].root@ == hex_text(h@));
}

} // verus!
