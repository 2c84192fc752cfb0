//! The persisted snapshot registry: the durable map from epoch to snapshot
//! metadata.
//!
//! The real registry is an external collaborator guarded by a read-write
//! lock; this layer needs only that finalizing a snapshot appends its record
//! in the same linearized step as the directory rename.  The manager's
//! commit operations therefore take the registry and perform rename and
//! record append together.

use vstd::prelude::*;

use crate::ids::{EpochId, MerkleHash};

verus! {

/// Metadata of a completed snapshot: its merkle root and enough to
/// reconstruct lineage.
#[derive(Clone, Copy, PartialEq, Eq, Structural, Debug)]
pub struct SnapshotInfo {
    /// The digest of the snapshot's content, computed by the database engine.
    pub merkle_root: MerkleHash,
    /// The epoch of the snapshot this one was derived from.
    pub parent_snapshot_epoch_id: EpochId,
    /// The epoch height at which the snapshot was taken.
    pub height: u64,
}

#[derive(Clone, Copy, Debug)]
pub struct RegistryEntry {
    pub epoch: EpochId,
    pub info: SnapshotInfo,
}

/// The map reading of a record list: later records win.
pub open spec fn registry_as_map(s: Seq<RegistryEntry>) -> Map<EpochId, SnapshotInfo>
    decreases s.len(),
{
    if s.len() == 0 {
        Map::empty()
    } else {
        registry_as_map(s.drop_last()).insert(s.last().epoch, s.last().info)
    }
}

/// The durable epoch-to-metadata table.
#[derive(Debug)]
pub struct SnapshotRegistry {
    pub entries: Vec<RegistryEntry>,
}

impl SnapshotRegistry {
    pub open spec fn as_map(self) -> Map<EpochId, SnapshotInfo> {
        registry_as_map(self.entries@)
    }

    pub fn new() -> (r: SnapshotRegistry)
        ensures
            r.as_map() =~= Map::<EpochId, SnapshotInfo>::empty(),
    {
        SnapshotRegistry { entries: Vec::new() }
    }

    /// Appends or replaces the record for an epoch.
    pub fn insert(&mut self, epoch: EpochId, info: SnapshotInfo)
        ensures
            final(self).as_map() =~= old(self).as_map().insert(epoch, info),
    {
        self.entries.push(RegistryEntry { epoch, info });
        proof {
            assert(self.entries@.drop_last() =~= old(self).entries@);
        }
    }

    /// Looks an epoch up.
    pub fn get(&self, epoch: EpochId) -> (r: Option<SnapshotInfo>)
        ensures
            match r {
                Some(info) => self.as_map().contains_key(epoch) && info == self.as_map()[epoch],
                None => !self.as_map().contains_key(epoch),
            },
    {
        proof {
            assert(self.entries@.subrange(0, self.entries@.len() as int) =~= self.entries@);
        }
        let mut i: usize = self.entries.len();
        while i > 0
            invariant
                i <= self.entries@.len(),
                registry_as_map(self.entries@.subrange(0, i as int)).contains_key(epoch)
                    == self.as_map().contains_key(epoch),
                registry_as_map(self.entries@.subrange(0, i as int)).contains_key(epoch)
                    ==> registry_as_map(self.entries@.subrange(0, i as int))[epoch]
                    == self.as_map()[epoch],
            decreases i,
        {
            i = i - 1;
            proof {
                assert(self.entries@.subrange(0, i + 1).drop_last() =~= self.entries@.subrange(
                    0,
                    i as int,
                ));
                assert(self.entries@.subrange(0, i + 1).last() == self.entries@[i as int]);
            }
            if self.entries[i].epoch == epoch {
                return Some(self.entries[i].info);
            }
        }
        proof {
            assert(self.entries@.subrange(0, 0) =~= Seq::<RegistryEntry>::empty());
        }
        None
    }
}

} // verus!
