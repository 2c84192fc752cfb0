//! The snapshot lifecycle manager.
//!
//! Orchestrates open, share, create-by-merging, full-sync commit and destroy
//! over two cache-and-gate instances (ordinary snapshots and isolated trie
//! sub-stores), the filesystem model, and the persisted registry.  Every
//! public operation states, over the models' map views, exactly which
//! outcome it returns on which state and what the state becomes.

use vstd::prelude::*;

use crate::db_model::{DbImage, KvOp};
use crate::errors::SnapshotError;
use crate::fs_model::FsModel;
use crate::ids::EpochId;
use crate::ids::MerkleHash;
use crate::paths::{spec_name, PathKey};
use crate::pool::{
    handle_of, remove_flag_of, strong_of, EntryState, OpenSnapshotPool, PoolEntry,
};
use crate::registry::{SnapshotInfo, SnapshotRegistry};

verus! {

/// A shared read reference to an open snapshot database.  Dropping the
/// reference is explicit here: the holder hands it back through
/// [`SnapshotDbManagerSqlite::release_snapshot`].
#[derive(Clone, Copy, PartialEq, Eq, Structural, Debug)]
pub struct SnapshotHandle {
    pub id: u64,
    pub path: PathKey,
}

/// The outcome of asking for a shared read handle.
#[derive(Clone, Copy, PartialEq, Eq, Structural, Debug)]
pub enum ReadOutcome {
    /// The caller now holds one live reference.
    Shared(SnapshotHandle),
    /// The directory is open exclusively for write; no reader may join.
    ExclusiveBusy,
    /// No such directory exists.
    Absent,
}

/// The outcome of an epoch lookup.
#[derive(Clone, Copy, PartialEq, Eq, Structural, Debug)]
pub enum GetSnapshotOutcome {
    /// The sentinel epoch: the fixed, always-available empty snapshot,
    /// served without touching the cache or the admission gate.
    NullSnapshot,
    Shared(SnapshotHandle),
    ExclusiveBusy,
    Absent,
}

/// Which keys belong to the snapshot store directory.
pub open spec fn snapshot_key(k: PathKey) -> bool {
    k is Committed || k is MergeTemp || k is FullSyncTemp
}

/// Which keys are temporary build directories.
pub open spec fn temp_key(k: PathKey) -> bool {
    k is MergeTemp || k is FullSyncTemp
}

/// Whether `q` is the trie sub-store companion of snapshot key `p`.
pub open spec fn attach_ok(p: PathKey, q: PathKey) -> bool {
    match p {
        PathKey::Committed(e) => q == PathKey::MptCommitted(e),
        _ => false,
    }
}

/// A directory with a shared, live (at least one reference) entry.
pub open spec fn live_shared(pool: OpenSnapshotPool, p: PathKey) -> bool {
    pool.as_map().contains_key(p) && pool.as_map()[p].state is Shared
}

/// Which duplication strategy a directory copy ended up using.
#[derive(Clone, Copy, PartialEq, Eq, Structural, Debug)]
pub enum CopyType {
    /// A copy-on-write clone: storage blocks shared until modified.
    Cow,
    /// An ordinary full copy.
    Std,
}

/// How a merge was carried out.
#[derive(Clone, Copy, PartialEq, Eq, Structural, Debug)]
pub struct MergeStats {
    /// Whether the new snapshot was built on a copy-on-write clone of the
    /// prior one.
    pub used_cow: bool,
    /// Whether a best-effort background defragmentation pass should be
    /// scheduled for the committed directory, decided probabilistically off
    /// the low bits of the new epoch identifier.
    pub defragmentation_scheduled: bool,
}

/// How a destroy request was carried out, for each of the two stores:
/// immediately removed (`false`) or deferred to the last close (`true`).
#[derive(Clone, Copy, PartialEq, Eq, Structural, Debug)]
pub struct DestroyOutcome {
    pub snapshot_deferred: bool,
    pub mpt_deferred: bool,
}

/// The snapshot lifecycle manager.
#[derive(Debug)]
pub struct SnapshotDbManagerSqlite {
    /// The store directory holding snapshot databases.
    pub snapshot_path: String,
    /// The sibling store directory holding isolated trie sub-stores.
    pub mpt_snapshot_path: String,
    /// Whether copy-on-write duplication is mandatory: falling back to a
    /// full copy is then a configuration error instead of a degradation.
    pub force_cow: bool,
    /// Whether the trie sub-table is kept in an isolated store at all.
    pub use_isolated_db_for_mpt_table: bool,
    /// The height from which the trie sub-table leaves the snapshot file.
    pub use_isolated_db_for_mpt_table_height: Option<u64>,
    /// The era length: every this many epochs the "latest" trie sub-store
    /// is copied out under an epoch name.
    pub era_epoch_count: u64,
    /// Cache and admission gate for snapshot databases.
    pub pool: OpenSnapshotPool,
    /// Cache and admission gate for isolated trie sub-stores.
    pub mpt_pool: OpenSnapshotPool,
}

impl SnapshotDbManagerSqlite {
    /// The manager's invariant over its two cache-and-gate instances.
    pub open spec fn inv(self) -> bool {
        &&& self.pool.wf()
        &&& self.mpt_pool.wf()
        &&& self.era_epoch_count >= 1
        &&& forall|p: PathKey| #[trigger]
            self.pool.as_map().contains_key(p) ==> snapshot_key(p) && self.pool.as_map()[p].path
                == p
        &&& forall|p: PathKey|
            self.pool.as_map().contains_key(p) && (#[trigger] self.pool.as_map()[p].state)
                is Exclusive ==> temp_key(p)
        &&& forall|p: PathKey|
            self.pool.as_map().contains_key(p) ==> ((#[trigger] self.pool.as_map()[p].attachment)
                matches Some(q) ==> attach_ok(p, q) && live_shared(self.mpt_pool, q))
        &&& forall|q: PathKey| #[trigger]
            self.mpt_pool.as_map().contains_key(q) ==> q is MptCommitted
                && self.mpt_pool.as_map()[q].path == q && !(self.mpt_pool.as_map()[q].state
                is Exclusive) && self.mpt_pool.as_map()[q].attachment is None
    }

    /// The parts of the manager that no operation changes.
    pub open spec fn same_config(pre: Self, post: Self) -> bool {
        &&& post.snapshot_path@ == pre.snapshot_path@
        &&& post.mpt_snapshot_path@ == pre.mpt_snapshot_path@
        &&& post.force_cow == pre.force_cow
        &&& post.use_isolated_db_for_mpt_table == pre.use_isolated_db_for_mpt_table
        &&& post.use_isolated_db_for_mpt_table_height == pre.use_isolated_db_for_mpt_table_height
        &&& post.era_epoch_count == pre.era_epoch_count
        &&& post.pool.max_open == pre.pool.max_open
        &&& post.mpt_pool.max_open == pre.mpt_pool.max_open
    }

    /// Whether, at this epoch height, the trie sub-table still lives inline
    /// in the snapshot file.
    pub open spec fn spec_mpt_table_in_current_db(self, epoch_height: u64) -> bool {
        if self.use_isolated_db_for_mpt_table {
            match self.use_isolated_db_for_mpt_table_height {
                Some(v) => epoch_height < v,
                None => false,
            }
        } else {
            true
        }
    }

    pub fn mpt_table_in_current_db(&self, epoch_height: u64) -> (r: bool)
        ensures
            r == self.spec_mpt_table_in_current_db(epoch_height),
    {
        if self.use_isolated_db_for_mpt_table {
            match self.use_isolated_db_for_mpt_table_height {
                Some(v) => epoch_height < v,
                None => false,
            }
        } else {
            true
        }
    }

    /// Sets up a manager over the given store directories: the "latest" trie
    /// sub-store is created if it does not exist yet, and both caches start
    /// empty with the configured admission bound.
    pub fn new(
        snapshot_path: String,
        mpt_snapshot_path: String,
        max_open_snapshots: u16,
        use_isolated_db_for_mpt_table: bool,
        use_isolated_db_for_mpt_table_height: Option<u64>,
        era_epoch_count: u64,
        fs: &mut FsModel,
    ) -> (r: SnapshotDbManagerSqlite)
        requires
            old(fs).wf(),
            era_epoch_count >= 1,
        ensures
            r.inv(),
            final(fs).wf(),
            final(fs).cow_supported == old(fs).cow_supported,
            final(fs).copy_healthy == old(fs).copy_healthy,
            final(fs).as_map() =~= if old(fs).as_map().contains_key(PathKey::MptLatest) {
                old(fs).as_map()
            } else {
                old(fs).as_map().insert(
                    PathKey::MptLatest,
                    crate::db_model::DbImageView {
                        kv: Seq::empty(),
                        dump: Seq::empty(),
                        mpt_table: true,
                    },
                )
            },
            r.snapshot_path@ == snapshot_path@,
            r.mpt_snapshot_path@ == mpt_snapshot_path@,
            r.force_cow == false,
            r.use_isolated_db_for_mpt_table == use_isolated_db_for_mpt_table,
            r.use_isolated_db_for_mpt_table_height == use_isolated_db_for_mpt_table_height,
            r.era_epoch_count == era_epoch_count,
            r.pool.max_open == max_open_snapshots as usize,
            r.mpt_pool.max_open == max_open_snapshots as usize,
            r.pool.count() == 0,
            r.mpt_pool.count() == 0,
            r.pool.as_map() =~= Map::<PathKey, PoolEntry>::empty(),
            r.mpt_pool.as_map() =~= Map::<PathKey, PoolEntry>::empty(),
    {
        if !fs.dir_exists(PathKey::MptLatest) {
            fs.put(PathKey::MptLatest, DbImage::create(true));
        }
        SnapshotDbManagerSqlite {
            snapshot_path,
            mpt_snapshot_path,
            force_cow: false,
            use_isolated_db_for_mpt_table,
            use_isolated_db_for_mpt_table_height,
            era_epoch_count,
            pool: OpenSnapshotPool::new(max_open_snapshots as usize),
            mpt_pool: OpenSnapshotPool::new(max_open_snapshots as usize),
        }
    }

    /// The snapshot store directory.
    pub fn get_snapshot_dir(&self) -> (r: &String)
        ensures
            r@ == self.snapshot_path@,
    {
        &self.snapshot_path
    }

    /// The directory name of a committed snapshot.
    pub fn get_snapshot_db_name(&self, snapshot_epoch_id: &EpochId) -> (r: String)
        ensures
            r@ == spec_name(PathKey::Committed(*snapshot_epoch_id)),
    {
        crate::paths::name_of(&PathKey::Committed(*snapshot_epoch_id))
    }

    /// The full path of a committed snapshot.
    pub fn get_snapshot_db_path(&self, snapshot_epoch_id: &EpochId) -> (r: String)
        ensures
            r@ == self.snapshot_path@ + "/"@ + spec_name(PathKey::Committed(*snapshot_epoch_id)),
    {
        join_path(&self.snapshot_path, &PathKey::Committed(*snapshot_epoch_id))
    }

    /// The full path of the epoch-named trie sub-store.
    pub fn get_mpt_snapshot_db_path(&self, snapshot_epoch_id: &EpochId) -> (r: String)
        ensures
            r@ == self.mpt_snapshot_path@ + "/"@ + spec_name(
                PathKey::MptCommitted(*snapshot_epoch_id),
            ),
    {
        join_path(&self.mpt_snapshot_path, &PathKey::MptCommitted(*snapshot_epoch_id))
    }

    /// The full path of the temporary directory a merge builds in.
    pub fn get_merge_temp_snapshot_db_path(
        &self,
        old_snapshot_epoch_id: &EpochId,
        new_snapshot_epoch_id: &EpochId,
    ) -> (r: String)
        ensures
            r@ == self.snapshot_path@ + "/"@ + spec_name(
                PathKey::MergeTemp(*old_snapshot_epoch_id, *new_snapshot_epoch_id),
            ),
    {
        join_path(
            &self.snapshot_path,
            &PathKey::MergeTemp(*old_snapshot_epoch_id, *new_snapshot_epoch_id),
        )
    }

    /// The full path of the temporary directory a full sync populates.
    pub fn get_full_sync_temp_snapshot_db_path(
        &self,
        snapshot_epoch_id: &EpochId,
        merkle_root: &MerkleHash,
    ) -> (r: String)
        ensures
            r@ == self.snapshot_path@ + "/"@ + spec_name(
                PathKey::FullSyncTemp(*snapshot_epoch_id, *merkle_root),
            ),
    {
        join_path(&self.snapshot_path, &PathKey::FullSyncTemp(*snapshot_epoch_id, *merkle_root))
    }

    /// The full path of the trie sub-store's merge-temporary directory.
    pub fn get_merge_temp_mpt_snapshot_db_path(
        &self,
        new_snapshot_epoch_id: &EpochId,
    ) -> (r: String)
        ensures
            r@ == self.mpt_snapshot_path@ + "/"@ + spec_name(
                PathKey::MptMergeTemp(*new_snapshot_epoch_id),
            ),
    {
        join_path(&self.mpt_snapshot_path, &PathKey::MptMergeTemp(*new_snapshot_epoch_id))
    }
    /// What stays the same when neither cache is touched.
    pub open spec fn pools_unchanged(pre: Self, post: Self) -> bool {
        &&& post.pool.as_map() == pre.pool.as_map()
        &&& post.pool.count() == pre.pool.count()
        &&& post.pool.next_handle == pre.pool.next_handle
        &&& post.mpt_pool.as_map() == pre.mpt_pool.as_map()
        &&& post.mpt_pool.count() == pre.mpt_pool.count()
        &&& post.mpt_pool.next_handle == pre.mpt_pool.next_handle
    }

    pub open spec fn mpt_pool_unchanged(pre: Self, post: Self) -> bool {
        &&& post.mpt_pool.as_map() == pre.mpt_pool.as_map()
        &&& post.mpt_pool.count() == pre.mpt_pool.count()
        &&& post.mpt_pool.next_handle == pre.mpt_pool.next_handle
    }

    pub open spec fn snapshot_pool_unchanged(pre: Self, post: Self) -> bool {
        &&& post.pool.as_map() == pre.pool.as_map()
        &&& post.pool.count() == pre.pool.count()
        &&& post.pool.next_handle == pre.pool.next_handle
    }

    /// The contract of [`Self::open_mpt_snapshot_readonly`], over the map
    /// views of the caches.
    pub open spec fn open_mpt_readonly_post(
        pre: Self,
        post: Self,
        fs: FsModel,
        epoch: EpochId,
        try_open: bool,
        r: Result<ReadOutcome, SnapshotError>,
    ) -> bool {
        let q = PathKey::MptCommitted(epoch);
        let mm = pre.mpt_pool.as_map();
        &&& Self::snapshot_pool_unchanged(pre, post)
        &&& if mm.contains_key(q) && mm[q].state is Shared {
            &&& r == Ok::<ReadOutcome, SnapshotError>(
                ReadOutcome::Shared(SnapshotHandle { id: handle_of(mm[q].state), path: q }),
            )
            &&& post.mpt_pool.as_map() == mm.insert(
                q,
                PoolEntry {
                    path: q,
                    state: EntryState::Shared {
                        handle: handle_of(mm[q].state),
                        strong: (strong_of(mm[q].state) + 1) as u64,
                        remove_on_close: remove_flag_of(mm[q].state),
                    },
                    attachment: mm[q].attachment,
                },
            )
            &&& post.mpt_pool.count() == pre.mpt_pool.count()
            &&& post.mpt_pool.next_handle == pre.mpt_pool.next_handle
        } else if mm.contains_key(q) && mm[q].state is Closing {
            r == Err::<ReadOutcome, SnapshotError>(SnapshotError::CloseInProgress)
                && Self::mpt_pool_unchanged(pre, post)
        } else if mm.contains_key(q) {
            // An exclusively-open trie sub-store cannot arise under the
            // invariant; nothing is claimed for it.
            true
        } else if !fs.as_map().contains_key(q) {
            r == Ok::<ReadOutcome, SnapshotError>(ReadOutcome::Absent) && Self::mpt_pool_unchanged(
                pre,
                post,
            )
        } else if pre.mpt_pool.count() >= pre.mpt_pool.max_open {
            r == (if try_open {
                Err::<ReadOutcome, SnapshotError>(SnapshotError::SemaphoreTryAcquireError)
            } else {
                Err::<ReadOutcome, SnapshotError>(SnapshotError::AdmissionWouldBlock)
            }) && Self::mpt_pool_unchanged(pre, post)
        } else {
            &&& r == Ok::<ReadOutcome, SnapshotError>(
                ReadOutcome::Shared(SnapshotHandle { id: pre.mpt_pool.next_handle, path: q }),
            )
            &&& post.mpt_pool.as_map() == mm.insert(
                q,
                PoolEntry {
                    path: q,
                    state: EntryState::Shared {
                        handle: pre.mpt_pool.next_handle,
                        strong: 1,
                        remove_on_close: false,
                    },
                    attachment: None,
                },
            )
            &&& post.mpt_pool.count() == pre.mpt_pool.count() + 1
        }
    }

    /// Asks for a shared read handle on the epoch-named trie sub-store.
    /// Shares the existing open handle when there is one; otherwise takes
    /// one unit of trie-store admission and opens it.
    pub fn open_mpt_snapshot_readonly(
        &mut self,
        snapshot_epoch_id: EpochId,
        try_open: bool,
        fs: &FsModel,
    ) -> (r: Result<ReadOutcome, SnapshotError>)
        requires
            old(self).inv(),
            fs.wf(),
            live_shared(old(self).mpt_pool, PathKey::MptCommitted(snapshot_epoch_id))
                ==> strong_of(
                old(self).mpt_pool.as_map()[PathKey::MptCommitted(snapshot_epoch_id)].state,
            ) < u64::MAX,
        ensures
            final(self).inv(),
            Self::same_config(*old(self), *final(self)),
            Self::open_mpt_readonly_post(*old(self), *final(self), *fs, snapshot_epoch_id, try_open, r),
    {
        let q = PathKey::MptCommitted(snapshot_epoch_id);
        match self.mpt_pool.state_of(q) {
            Some(EntryState::Shared { .. }) => {
                let h = self.mpt_pool.inc_strong(q);
                proof {
                    self.lemma_inv_after_mpt_update(*old(self), q);
                }
                Ok(ReadOutcome::Shared(SnapshotHandle { id: h, path: q }))
            },
            Some(EntryState::Closing { .. }) => Err(SnapshotError::CloseInProgress),
            Some(EntryState::Exclusive { .. }) => {
                proof {
                    assert(false);
                }
                Err(SnapshotError::InvariantViolation)
            },
            None => {
                if !fs.dir_exists(q) {
                    return Ok(ReadOutcome::Absent);
                }
                if self.mpt_pool.len() >= self.mpt_pool.max_open {
                    return if try_open {
                        Err(SnapshotError::SemaphoreTryAcquireError)
                    } else {
                        Err(SnapshotError::AdmissionWouldBlock)
                    };
                }
                let h = self.mpt_pool.insert_shared(q, None);
                proof {
                    self.lemma_inv_after_mpt_update(*old(self), q);
                }
                Ok(ReadOutcome::Shared(SnapshotHandle { id: h, path: q }))
            },
        }
    }

    /// Re-establishes the invariant after the trie-store cache changed at
    /// one key that is now shared and unattached-or-unchanged.
    proof fn lemma_inv_after_mpt_update(self, pre: Self, q: PathKey)
        requires
            pre.inv(),
            q is MptCommitted,
            self.pool == pre.pool,
            self.era_epoch_count == pre.era_epoch_count,
            self.mpt_pool.wf(),
            self.mpt_pool.as_map().contains_key(q),
            self.mpt_pool.as_map()[q].path == q,
            self.mpt_pool.as_map()[q].state is Shared,
            self.mpt_pool.as_map()[q].attachment is None,
            forall|x: PathKey|
                x != q ==> #[trigger] self.mpt_pool.as_map().contains_key(x)
                    == pre.mpt_pool.as_map().contains_key(x),
            forall|x: PathKey|
                x != q && pre.mpt_pool.as_map().contains_key(x)
                    ==> #[trigger] self.mpt_pool.as_map()[x] == pre.mpt_pool.as_map()[x],
        ensures
            self.inv(),
    {
        assert forall|p: PathKey|
            self.pool.as_map().contains_key(p) implies ((
        #[trigger] self.pool.as_map()[p].attachment) matches Some(qq) ==> attach_ok(p, qq)
            && live_shared(self.mpt_pool, qq)) by {
            let att = self.pool.as_map()[p].attachment;
            if att is Some {
                let qq = att->0;
                assert(attach_ok(p, qq) && live_shared(pre.mpt_pool, qq));
            }
        }
    }

    /// Re-establishes the invariant after the snapshot cache changed at one
    /// key whose new entry is consistent.
    proof fn lemma_inv_after_pool_update(self, pre: Self, p: PathKey)
        requires
            pre.inv(),
            snapshot_key(p),
            self.mpt_pool == pre.mpt_pool,
            self.era_epoch_count == pre.era_epoch_count,
            self.pool.wf(),
            self.pool.as_map().contains_key(p),
            self.pool.as_map()[p].path == p,
            self.pool.as_map()[p].state is Exclusive ==> temp_key(p),
            self.pool.as_map()[p].attachment matches Some(q) ==> attach_ok(p, q) && live_shared(
                self.mpt_pool,
                q,
            ),
            forall|x: PathKey|
                x != p ==> #[trigger] self.pool.as_map().contains_key(x)
                    == pre.pool.as_map().contains_key(x),
            forall|x: PathKey|
                x != p && pre.pool.as_map().contains_key(x) ==> #[trigger] self.pool.as_map()[x]
                    == pre.pool.as_map()[x],
        ensures
            self.inv(),
    {
        assert forall|x: PathKey| #[trigger]
            self.pool.as_map().contains_key(x) implies snapshot_key(x) && self.pool.as_map()[x].path
            == x by {
            if x != p {
                assert(pre.pool.as_map().contains_key(x));
            }
        }
        assert forall|x: PathKey|
            self.pool.as_map().contains_key(x) && (#[trigger] self.pool.as_map()[x].state)
                is Exclusive implies temp_key(x) by {
            if x != p {
                assert(pre.pool.as_map().contains_key(x));
            }
        }
        assert forall|x: PathKey|
            self.pool.as_map().contains_key(x) implies ((
        #[trigger] self.pool.as_map()[x].attachment) matches Some(qq) ==> attach_ok(x, qq)
            && live_shared(self.mpt_pool, qq)) by {
            let att = self.pool.as_map()[x].attachment;
            if x != p && att is Some {
                assert(pre.pool.as_map().contains_key(x));
                let qq = att->0;
                assert(attach_ok(x, qq) && live_shared(pre.mpt_pool, qq));
            }
        }
    }

    /// The contract of [`Self::open_snapshot_readonly`], over the map views
    /// of the caches.
    pub open spec fn open_readonly_post(
        pre: Self,
        post: Self,
        fs: FsModel,
        epoch: EpochId,
        try_open: bool,
        r: Result<ReadOutcome, SnapshotError>,
    ) -> bool {
        let p = PathKey::Committed(epoch);
        let q = PathKey::MptCommitted(epoch);
        let m = pre.pool.as_map();
        let mm = pre.mpt_pool.as_map();
        let use_mpt = pre.use_isolated_db_for_mpt_table && fs.as_map().contains_key(q);
        if m.contains_key(p) && m[p].state is Exclusive {
            r == Ok::<ReadOutcome, SnapshotError>(ReadOutcome::ExclusiveBusy)
                && Self::pools_unchanged(pre, post)
        } else if m.contains_key(p) && m[p].state is Shared {
            &&& r == Ok::<ReadOutcome, SnapshotError>(
                ReadOutcome::Shared(SnapshotHandle { id: handle_of(m[p].state), path: p }),
            )
            &&& post.pool.as_map() == m.insert(
                p,
                PoolEntry {
                    path: p,
                    state: EntryState::Shared {
                        handle: handle_of(m[p].state),
                        strong: (strong_of(m[p].state) + 1) as u64,
                        remove_on_close: remove_flag_of(m[p].state),
                    },
                    attachment: m[p].attachment,
                },
            )
            &&& post.pool.count() == pre.pool.count()
            &&& post.pool.next_handle == pre.pool.next_handle
            &&& Self::mpt_pool_unchanged(pre, post)
        } else if m.contains_key(p) {
            r == Err::<ReadOutcome, SnapshotError>(SnapshotError::CloseInProgress)
                && Self::pools_unchanged(pre, post)
        } else if !fs.as_map().contains_key(p) {
            r == Ok::<ReadOutcome, SnapshotError>(ReadOutcome::Absent) && Self::pools_unchanged(
                pre,
                post,
            )
        } else if pre.pool.count() >= pre.pool.max_open {
            r == (if try_open {
                Err::<ReadOutcome, SnapshotError>(SnapshotError::SemaphoreTryAcquireError)
            } else {
                Err::<ReadOutcome, SnapshotError>(SnapshotError::AdmissionWouldBlock)
            }) && Self::pools_unchanged(pre, post)
        } else if use_mpt && mm.contains_key(q) && mm[q].state is Closing {
            r == Err::<ReadOutcome, SnapshotError>(SnapshotError::CloseInProgress)
                && Self::pools_unchanged(pre, post)
        } else if use_mpt && mm.contains_key(q) && mm[q].state is Exclusive {
            // Unreachable under the invariant: trie sub-stores are never
            // open for write.
            true
        } else if use_mpt && !mm.contains_key(q) && pre.mpt_pool.count() >= pre.mpt_pool.max_open {
            r == Err::<ReadOutcome, SnapshotError>(SnapshotError::AdmissionWouldBlock)
                && Self::pools_unchanged(pre, post)
        } else {
            &&& r == Ok::<ReadOutcome, SnapshotError>(
                ReadOutcome::Shared(SnapshotHandle { id: pre.pool.next_handle, path: p }),
            )
            &&& post.pool.as_map() == m.insert(
                p,
                PoolEntry {
                    path: p,
                    state: EntryState::Shared {
                        handle: pre.pool.next_handle,
                        strong: 1,
                        remove_on_close: false,
                    },
                    attachment: if use_mpt {
                        Some(q)
                    } else {
                        None
                    },
                },
            )
            &&& post.pool.count() == pre.pool.count() + 1
            &&& post.pool.next_handle == if pre.pool.next_handle < u64::MAX {
                (pre.pool.next_handle + 1) as u64
            } else {
                u64::MAX
            }
            &&& if use_mpt {
                if mm.contains_key(q) {
                    post.mpt_pool.as_map() == mm.insert(
                        q,
                        PoolEntry {
                            path: q,
                            state: EntryState::Shared {
                                handle: handle_of(mm[q].state),
                                strong: (strong_of(mm[q].state) + 1) as u64,
                                remove_on_close: remove_flag_of(mm[q].state),
                            },
                            attachment: mm[q].attachment,
                        },
                    ) && post.mpt_pool.count() == pre.mpt_pool.count()
                } else {
                    post.mpt_pool.as_map() == mm.insert(
                        q,
                        PoolEntry {
                            path: q,
                            state: EntryState::Shared {
                                handle: pre.mpt_pool.next_handle,
                                strong: 1,
                                remove_on_close: false,
                            },
                            attachment: None,
                        },
                    ) && post.mpt_pool.count() == pre.mpt_pool.count() + 1
                }
            } else {
                Self::mpt_pool_unchanged(pre, post)
            }
        }
    }

    /// Asks for a shared read handle on a committed snapshot, the heart of
    /// the open-handle cache: an exclusively-open path refuses readers, a
    /// live shared handle is joined without consuming admission, a closing
    /// one must be waited out, and an untracked existing directory is opened
    /// under one unit of admission — blocking or fail-fast per `try_open` —
    /// together with its isolated trie sub-store where one exists.
    pub fn open_snapshot_readonly(
        &mut self,
        snapshot_epoch_id: EpochId,
        try_open: bool,
        fs: &FsModel,
    ) -> (r: Result<ReadOutcome, SnapshotError>)
        requires
            old(self).inv(),
            fs.wf(),
            live_shared(old(self).pool, PathKey::Committed(snapshot_epoch_id)) ==> strong_of(
                old(self).pool.as_map()[PathKey::Committed(snapshot_epoch_id)].state,
            ) < u64::MAX,
            live_shared(old(self).mpt_pool, PathKey::MptCommitted(snapshot_epoch_id))
                ==> strong_of(
                old(self).mpt_pool.as_map()[PathKey::MptCommitted(snapshot_epoch_id)].state,
            ) < u64::MAX,
        ensures
            final(self).inv(),
            Self::same_config(*old(self), *final(self)),
            Self::open_readonly_post(
                *old(self),
                *final(self),
                *fs,
                snapshot_epoch_id,
                try_open,
                r,
            ),
    {
        let p = PathKey::Committed(snapshot_epoch_id);
        let q = PathKey::MptCommitted(snapshot_epoch_id);
        match self.pool.state_of(p) {
            Some(EntryState::Exclusive { .. }) => Ok(ReadOutcome::ExclusiveBusy),
            Some(EntryState::Shared { .. }) => {
                let h = self.pool.inc_strong(p);
                proof {
                    self.lemma_inv_after_pool_update(*old(self), p);
                }
                Ok(ReadOutcome::Shared(SnapshotHandle { id: h, path: p }))
            },
            Some(EntryState::Closing { .. }) => Err(SnapshotError::CloseInProgress),
            None => {
                if !fs.dir_exists(p) {
                    return Ok(ReadOutcome::Absent);
                }
                if self.pool.len() >= self.pool.max_open {
                    return if try_open {
                        Err(SnapshotError::SemaphoreTryAcquireError)
                    } else {
                        Err(SnapshotError::AdmissionWouldBlock)
                    };
                }
                let mut attachment: Option<PathKey> = None;
                if self.use_isolated_db_for_mpt_table && fs.dir_exists(q) {
                    match self.open_mpt_snapshot_readonly(snapshot_epoch_id, false, fs) {
                        Ok(ReadOutcome::Shared(_mpt_handle)) => {
                            attachment = Some(q);
                        },
                        Ok(ReadOutcome::Absent) => {
                            proof {
                                assert(false);
                            }
                        },
                        Ok(ReadOutcome::ExclusiveBusy) => {
                            proof {
                                assert(false);
                            }
                        },
                        Err(e) => {
                            return Err(e);
                        },
                    }
                }
                let ghost mid = *self;
                let h = self.pool.insert_shared(p, attachment);
                proof {
                    self.lemma_inv_after_pool_update(mid, p);
                }
                Ok(ReadOutcome::Shared(SnapshotHandle { id: h, path: p }))
            },
        }
    }

    /// The contract of [`Self::open_snapshot_write`].
    pub open spec fn open_write_post(
        pre: Self,
        post: Self,
        fs_pre: FsModel,
        fs_post: FsModel,
        path: PathKey,
        create: bool,
        epoch_height: u64,
        r: Result<SnapshotHandle, SnapshotError>,
    ) -> bool {
        let m = pre.pool.as_map();
        let mpt_in_db = pre.spec_mpt_table_in_current_db(epoch_height);
        if m.contains_key(path) {
            r == Err::<SnapshotHandle, SnapshotError>(SnapshotError::SnapshotAlreadyExists)
                && Self::pools_unchanged(pre, post) && fs_post.as_map() == fs_pre.as_map()
        } else if pre.pool.count() >= pre.pool.max_open {
            r == Err::<SnapshotHandle, SnapshotError>(SnapshotError::AdmissionWouldBlock)
                && Self::pools_unchanged(pre, post) && fs_post.as_map() == fs_pre.as_map()
        } else if create && fs_pre.as_map().contains_key(path) {
            r == Err::<SnapshotHandle, SnapshotError>(SnapshotError::SnapshotAlreadyExists)
                && Self::pools_unchanged(pre, post) && fs_post.as_map() == fs_pre.as_map()
        } else if !create && !fs_pre.as_map().contains_key(path) {
            r == Err::<SnapshotHandle, SnapshotError>(SnapshotError::SnapshotNotFound)
                && Self::pools_unchanged(pre, post) && fs_post.as_map() == fs_pre.as_map()
        } else {
            &&& r == Ok::<SnapshotHandle, SnapshotError>(
                SnapshotHandle { id: pre.pool.next_handle, path },
            )
            &&& post.pool.as_map() == m.insert(
                path,
                PoolEntry {
                    path,
                    state: EntryState::Exclusive { handle: pre.pool.next_handle },
                    attachment: None,
                },
            )
            &&& post.pool.count() == pre.pool.count() + 1
            &&& post.pool.next_handle == if pre.pool.next_handle < u64::MAX {
                (pre.pool.next_handle + 1) as u64
            } else {
                u64::MAX
            }
            &&& Self::mpt_pool_unchanged(pre, post)
            &&& fs_post.as_map() == fs_pre.as_map().insert(
                path,
                if create {
                    crate::db_model::DbImageView {
                        kv: Seq::empty(),
                        dump: Seq::empty(),
                        mpt_table: mpt_in_db,
                    }
                } else {
                    crate::db_model::DbImageView {
                        kv: fs_pre.as_map()[path].kv,
                        dump: fs_pre.as_map()[path].dump,
                        mpt_table: fs_pre.as_map()[path].mpt_table && mpt_in_db,
                    }
                },
            )
        }
    }

    /// Opens a directory exclusively for write, creating it or taking over
    /// an existing one.  Writers never coexist with any other opener, and
    /// only temporary build directories are ever opened for write: completed
    /// snapshots are read-only.
    pub fn open_snapshot_write(
        &mut self,
        path: PathKey,
        create: bool,
        epoch_height: u64,
        fs: &mut FsModel,
    ) -> (r: Result<SnapshotHandle, SnapshotError>)
        requires
            old(self).inv(),
            old(fs).wf(),
            temp_key(path),
        ensures
            final(self).inv(),
            Self::same_config(*old(self), *final(self)),
            final(fs).wf(),
            final(fs).cow_supported == old(fs).cow_supported,
            final(fs).copy_healthy == old(fs).copy_healthy,
            Self::open_write_post(
                *old(self),
                *final(self),
                *old(fs),
                *final(fs),
                path,
                create,
                epoch_height,
                r,
            ),
    {
        match self.pool.state_of(path) {
            Some(_) => Err(SnapshotError::SnapshotAlreadyExists),
            None => {
                if self.pool.len() >= self.pool.max_open {
                    return Err(SnapshotError::AdmissionWouldBlock);
                }
                let dir_present = fs.dir_exists(path);
                let mpt_in_db = self.mpt_table_in_current_db(epoch_height);
                if create {
                    if dir_present {
                        return Err(SnapshotError::SnapshotAlreadyExists);
                    }
                    fs.put(path, DbImage::create(mpt_in_db));
                } else {
                    if !dir_present {
                        return Err(SnapshotError::SnapshotNotFound);
                    }
                    let mut img = match fs.get_image(path) {
                        Some(img) => img,
                        None => {
                            proof {
                                assert(false);
                            }
                            DbImage::create(false)
                        },
                    };
                    if !mpt_in_db {
                        img.drop_mpt_table();
                    }
                    fs.update_image(path, img);
                }
                let h = self.pool.insert_exclusive(path);
                proof {
                    self.lemma_inv_after_pool_update(*old(self), path);
                }
                Ok(SnapshotHandle { id: h, path })
            },
        }
    }

    /// Hands back one shared read reference, the explicit form of dropping
    /// the reference-counted handle.  When the last reference goes, the
    /// entry starts its asynchronous close; its admission stays held and the
    /// path stays blocked until [`Self::on_close`] completes the teardown.
    pub fn release_snapshot(&mut self, handle: &SnapshotHandle)
        requires
            old(self).inv(),
            live_shared(old(self).pool, handle.path),
            handle_of(old(self).pool.as_map()[handle.path].state) == handle.id,
        ensures
            final(self).inv(),
            Self::same_config(*old(self), *final(self)),
            Self::mpt_pool_unchanged(*old(self), *final(self)),
            final(self).pool.as_map() == old(self).pool.as_map().insert(
                handle.path,
                PoolEntry {
                    path: handle.path,
                    state: if strong_of(old(self).pool.as_map()[handle.path].state) == 1 {
                        EntryState::Closing {
                            handle: handle.id,
                            remove_on_close: remove_flag_of(
                                old(self).pool.as_map()[handle.path].state,
                            ),
                        }
                    } else {
                        EntryState::Shared {
                            handle: handle.id,
                            strong: (strong_of(old(self).pool.as_map()[handle.path].state)
                                - 1) as u64,
                            remove_on_close: remove_flag_of(
                                old(self).pool.as_map()[handle.path].state,
                            ),
                        }
                    },
                    attachment: old(self).pool.as_map()[handle.path].attachment,
                },
            ),
            final(self).pool.count() == old(self).pool.count(),
            final(self).pool.next_handle == old(self).pool.next_handle,
    {
        self.pool.dec_strong(handle.path);
        proof {
            self.lemma_inv_after_pool_update(*old(self), handle.path);
        }
    }

    /// Hands back an exclusive write handle: the entry starts its
    /// asynchronous close.
    pub fn release_write_snapshot(&mut self, handle: &SnapshotHandle)
        requires
            old(self).inv(),
            old(self).pool.as_map().contains_key(handle.path),
            old(self).pool.as_map()[handle.path].state is Exclusive,
            handle_of(old(self).pool.as_map()[handle.path].state) == handle.id,
        ensures
            final(self).inv(),
            Self::same_config(*old(self), *final(self)),
            Self::mpt_pool_unchanged(*old(self), *final(self)),
            final(self).pool.as_map() == old(self).pool.as_map().insert(
                handle.path,
                PoolEntry {
                    path: handle.path,
                    state: EntryState::Closing { handle: handle.id, remove_on_close: false },
                    attachment: old(self).pool.as_map()[handle.path].attachment,
                },
            ),
            final(self).pool.count() == old(self).pool.count(),
            final(self).pool.next_handle == old(self).pool.next_handle,
    {
        self.pool.close_exclusive(handle.path);
        proof {
            self.lemma_inv_after_pool_update(*old(self), handle.path);
        }
    }

    /// Completes the asynchronous close of a snapshot database: removes the
    /// cache entry, releases its admission, removes the directory if it was
    /// marked for removal, and drops the reference it held on its isolated
    /// trie sub-store.
    pub fn on_close(&mut self, path: PathKey, fs: &mut FsModel)
        requires
            old(self).inv(),
            old(fs).wf(),
            old(self).pool.as_map().contains_key(path),
            old(self).pool.as_map()[path].state is Closing,
        ensures
            final(self).inv(),
            Self::same_config(*old(self), *final(self)),
            final(fs).wf(),
            final(fs).cow_supported == old(fs).cow_supported,
            final(fs).copy_healthy == old(fs).copy_healthy,
            final(self).pool.as_map() == old(self).pool.as_map().remove(path),
            final(self).pool.count() == old(self).pool.count() - 1,
            final(self).pool.next_handle == old(self).pool.next_handle,
            final(fs).as_map() == if remove_flag_of(old(self).pool.as_map()[path].state) {
                old(fs).as_map().remove(path)
            } else {
                old(fs).as_map()
            },
            ({
                let att = old(self).pool.as_map()[path].attachment;
                if att is Some {
                    let q = att->0;
                    final(self).mpt_pool.as_map() == old(self).mpt_pool.as_map().insert(
                        q,
                        PoolEntry {
                            path: q,
                            state: if strong_of(old(self).mpt_pool.as_map()[q].state) == 1 {
                                EntryState::Closing {
                                    handle: handle_of(old(self).mpt_pool.as_map()[q].state),
                                    remove_on_close: remove_flag_of(
                                        old(self).mpt_pool.as_map()[q].state,
                                    ),
                                }
                            } else {
                                EntryState::Shared {
                                    handle: handle_of(old(self).mpt_pool.as_map()[q].state),
                                    strong: (strong_of(old(self).mpt_pool.as_map()[q].state)
                                        - 1) as u64,
                                    remove_on_close: remove_flag_of(
                                        old(self).mpt_pool.as_map()[q].state,
                                    ),
                                }
                            },
                            attachment: old(self).mpt_pool.as_map()[q].attachment,
                        },
                    ) && final(self).mpt_pool.count() == old(self).mpt_pool.count()
                } else {
                    Self::mpt_pool_unchanged(*old(self), *final(self))
                }
            }),
    {
        let (remove_on_close, attachment) = self.pool.remove_closed(path);
        if remove_on_close {
            fs.remove_dir(path);
        }
        match attachment {
            Some(q) => {
                proof {
                    assert(attach_ok(path, q) && live_shared(old(self).mpt_pool, q));
                }
                self.mpt_pool.dec_strong(q);
                proof {
                    self.lemma_inv_after_release(*old(self), path, q);
                }
            },
            None => {
                proof {
                    self.lemma_inv_after_remove(*old(self), path);
                }
            },
        }
    }

    /// Re-establishes the invariant after a snapshot cache entry was removed
    /// and nothing else changed.
    proof fn lemma_inv_after_remove(self, pre: Self, path: PathKey)
        requires
            pre.inv(),
            self.mpt_pool == pre.mpt_pool,
            self.era_epoch_count == pre.era_epoch_count,
            self.pool.wf(),
            self.pool.as_map() == pre.pool.as_map().remove(path),
        ensures
            self.inv(),
    {
        assert forall|x: PathKey| #[trigger]
            self.pool.as_map().contains_key(x) implies snapshot_key(x) && self.pool.as_map()[x].path
            == x by {
            assert(pre.pool.as_map().contains_key(x));
        }
        assert forall|x: PathKey|
            self.pool.as_map().contains_key(x) && (#[trigger] self.pool.as_map()[x].state)
                is Exclusive implies temp_key(x) by {
            assert(pre.pool.as_map().contains_key(x));
        }
        assert forall|x: PathKey|
            self.pool.as_map().contains_key(x) implies ((
        #[trigger] self.pool.as_map()[x].attachment) matches Some(qq) ==> attach_ok(x, qq)
            && live_shared(self.mpt_pool, qq)) by {
            assert(pre.pool.as_map().contains_key(x));
            let att = self.pool.as_map()[x].attachment;
            if att is Some {
                let qq = att->0;
                assert(attach_ok(x, qq) && live_shared(pre.mpt_pool, qq));
            }
        }
    }

    /// Re-establishes the invariant after a snapshot cache entry that held a
    /// trie sub-store reference was removed and that reference was dropped.
    proof fn lemma_inv_after_release(self, pre: Self, path: PathKey, q: PathKey)
        requires
            pre.inv(),
            pre.pool.as_map().contains_key(path),
            pre.pool.as_map()[path].attachment == Some(q),
            self.era_epoch_count == pre.era_epoch_count,
            self.pool.wf(),
            self.mpt_pool.wf(),
            self.pool.as_map() == pre.pool.as_map().remove(path),
            self.mpt_pool.as_map().contains_key(q),
            self.mpt_pool.as_map()[q].path == pre.mpt_pool.as_map()[q].path,
            self.mpt_pool.as_map()[q].attachment == pre.mpt_pool.as_map()[q].attachment,
            !(self.mpt_pool.as_map()[q].state is Exclusive),
            forall|x: PathKey|
                x != q ==> #[trigger] self.mpt_pool.as_map().contains_key(x)
                    == pre.mpt_pool.as_map().contains_key(x),
            forall|x: PathKey|
                x != q && pre.mpt_pool.as_map().contains_key(x)
                    ==> #[trigger] self.mpt_pool.as_map()[x] == pre.mpt_pool.as_map()[x],
        ensures
            self.inv(),
    {
        assert forall|x: PathKey| #[trigger]
            self.pool.as_map().contains_key(x) implies snapshot_key(x) && self.pool.as_map()[x].path
            == x by {
            assert(pre.pool.as_map().contains_key(x));
        }
        assert forall|x: PathKey|
            self.pool.as_map().contains_key(x) && (#[trigger] self.pool.as_map()[x].state)
                is Exclusive implies temp_key(x) by {
            assert(pre.pool.as_map().contains_key(x));
        }
        assert forall|x: PathKey|
            self.pool.as_map().contains_key(x) implies ((
        #[trigger] self.pool.as_map()[x].attachment) matches Some(qq) ==> attach_ok(x, qq)
            && live_shared(self.mpt_pool, qq)) by {
            assert(pre.pool.as_map().contains_key(x));
            let att = self.pool.as_map()[x].attachment;
            if att is Some {
                let qq = att->0;
                assert(attach_ok(x, qq) && live_shared(pre.mpt_pool, qq));
                if qq == q {
                    assert(x != path);
                    assert(attach_ok(path, q));
                    assert(x == path);
                }
            }
        }
        assert forall|x: PathKey| #[trigger]
            self.mpt_pool.as_map().contains_key(x) implies x is MptCommitted
            && self.mpt_pool.as_map()[x].path == x && !(self.mpt_pool.as_map()[x].state
            is Exclusive) && self.mpt_pool.as_map()[x].attachment is None by {
            assert(pre.mpt_pool.as_map().contains_key(x));
        }
    }

    /// Completes the asynchronous close of an isolated trie sub-store.
    pub fn on_close_mpt_snapshot(&mut self, path: PathKey, fs: &mut FsModel)
        requires
            old(self).inv(),
            old(fs).wf(),
            old(self).mpt_pool.as_map().contains_key(path),
            old(self).mpt_pool.as_map()[path].state is Closing,
        ensures
            final(self).inv(),
            Self::same_config(*old(self), *final(self)),
            final(fs).wf(),
            final(fs).cow_supported == old(fs).cow_supported,
            final(fs).copy_healthy == old(fs).copy_healthy,
            Self::snapshot_pool_unchanged(*old(self), *final(self)),
            final(self).mpt_pool.as_map() == old(self).mpt_pool.as_map().remove(path),
            final(self).mpt_pool.count() == old(self).mpt_pool.count() - 1,
            final(self).mpt_pool.next_handle == old(self).mpt_pool.next_handle,
            final(fs).as_map() == if remove_flag_of(old(self).mpt_pool.as_map()[path].state) {
                old(fs).as_map().remove(path)
            } else {
                old(fs).as_map()
            },
    {
        let (remove_on_close, _attachment) = self.mpt_pool.remove_closed(path);
        if remove_on_close {
            fs.remove_dir(path);
        }
        proof {
            assert forall|x: PathKey|
                self.pool.as_map().contains_key(x) implies ((
            #[trigger] self.pool.as_map()[x].attachment) matches Some(qq) ==> attach_ok(x, qq)
                && live_shared(self.mpt_pool, qq)) by {
                let att = self.pool.as_map()[x].attachment;
                if att is Some {
                    let qq = att->0;
                    assert(attach_ok(x, qq) && live_shared(old(self).mpt_pool, qq));
                    assert(qq != path);
                }
            }
            assert forall|x: PathKey| #[trigger]
                self.mpt_pool.as_map().contains_key(x) implies x is MptCommitted
                && self.mpt_pool.as_map()[x].path == x && !(self.mpt_pool.as_map()[x].state
                is Exclusive) && self.mpt_pool.as_map()[x].attachment is None by {
                assert(old(self).mpt_pool.as_map().contains_key(x));
            }
        }
    }

    /// The read outcome underlying an epoch lookup's outcome.
    pub open spec fn as_read_outcome(r: Result<GetSnapshotOutcome, SnapshotError>) -> Result<
        ReadOutcome,
        SnapshotError,
    > {
        match r {
            Ok(GetSnapshotOutcome::NullSnapshot) => Ok(ReadOutcome::Absent),
            Ok(GetSnapshotOutcome::Shared(h)) => Ok(ReadOutcome::Shared(h)),
            Ok(GetSnapshotOutcome::ExclusiveBusy) => Ok(ReadOutcome::ExclusiveBusy),
            Ok(GetSnapshotOutcome::Absent) => Ok(ReadOutcome::Absent),
            Err(e) => Err(e),
        }
    }

    /// Looks a snapshot up by epoch.  The sentinel epoch is served as the
    /// fixed, always-available empty snapshot without touching the cache or
    /// the admission gate; any other epoch goes through the open-handle cache, with
    /// `try_open` choosing fail-fast over blocking admission.
    pub fn get_snapshot_by_epoch_id(
        &mut self,
        snapshot_epoch_id: EpochId,
        try_open: bool,
        fs: &FsModel,
    ) -> (r: Result<GetSnapshotOutcome, SnapshotError>)
        requires
            old(self).inv(),
            fs.wf(),
            live_shared(old(self).pool, PathKey::Committed(snapshot_epoch_id)) ==> strong_of(
                old(self).pool.as_map()[PathKey::Committed(snapshot_epoch_id)].state,
            ) < u64::MAX,
            live_shared(old(self).mpt_pool, PathKey::MptCommitted(snapshot_epoch_id))
                ==> strong_of(
                old(self).mpt_pool.as_map()[PathKey::MptCommitted(snapshot_epoch_id)].state,
            ) < u64::MAX,
        ensures
            final(self).inv(),
            Self::same_config(*old(self), *final(self)),
            snapshot_epoch_id.spec_is_null() ==> r == Ok::<GetSnapshotOutcome, SnapshotError>(
                GetSnapshotOutcome::NullSnapshot,
            ) && Self::pools_unchanged(*old(self), *final(self)),
            !snapshot_epoch_id.spec_is_null() ==> !(r matches Ok(GetSnapshotOutcome::NullSnapshot))
                && Self::open_readonly_post(
                *old(self),
                *final(self),
                *fs,
                snapshot_epoch_id,
                try_open,
                Self::as_read_outcome(r),
            ),
    {
        if snapshot_epoch_id.is_null() {
            return Ok(GetSnapshotOutcome::NullSnapshot);
        }
        match self.open_snapshot_readonly(snapshot_epoch_id, try_open, fs) {
            Ok(ReadOutcome::Shared(h)) => Ok(GetSnapshotOutcome::Shared(h)),
            Ok(ReadOutcome::ExclusiveBusy) => Ok(GetSnapshotOutcome::ExclusiveBusy),
            Ok(ReadOutcome::Absent) => Ok(GetSnapshotOutcome::Absent),
            Err(e) => Err(e),
        }
    }

    /// The contract of [`Self::destroy_snapshot`].
    pub open spec fn destroy_post(
        pre: Self,
        post: Self,
        fs_pre: FsModel,
        fs_post: FsModel,
        epoch: EpochId,
        r: Result<DestroyOutcome, SnapshotError>,
    ) -> bool {
        let p = PathKey::Committed(epoch);
        let q = PathKey::MptCommitted(epoch);
        let m = pre.pool.as_map();
        let mm = pre.mpt_pool.as_map();
        if m.contains_key(p) && m[p].state is Closing {
            r == Err::<DestroyOutcome, SnapshotError>(SnapshotError::CloseInProgress)
                && Self::pools_unchanged(pre, post) && fs_post.as_map() == fs_pre.as_map()
        } else if m.contains_key(p) && m[p].state is Exclusive {
            // Unreachable under the invariant: a committed path is never
            // open for write.
            true
        } else {
            let pool_done = if m.contains_key(p) {
                m.insert(
                    p,
                    PoolEntry {
                        path: p,
                        state: EntryState::Shared {
                            handle: handle_of(m[p].state),
                            strong: strong_of(m[p].state),
                            remove_on_close: true,
                        },
                        attachment: m[p].attachment,
                    },
                )
            } else {
                m
            };
            let fs_mid = if !m.contains_key(p) && !epoch.spec_is_null() {
                fs_pre.as_map().remove(p)
            } else {
                fs_pre.as_map()
            };
            &&& post.pool.as_map() == pool_done
            &&& post.pool.count() == pre.pool.count()
            &&& post.pool.next_handle == pre.pool.next_handle
            &&& if mm.contains_key(q) && mm[q].state is Closing {
                &&& r == Err::<DestroyOutcome, SnapshotError>(SnapshotError::CloseInProgress)
                &&& post.mpt_pool.as_map() == mm
                &&& post.mpt_pool.count() == pre.mpt_pool.count()
                &&& fs_post.as_map() == fs_mid
            } else if mm.contains_key(q) && mm[q].state is Exclusive {
                // Unreachable under the invariant.
                true
            } else {
                let mpt_done = if mm.contains_key(q) {
                    mm.insert(
                        q,
                        PoolEntry {
                            path: q,
                            state: EntryState::Shared {
                                handle: handle_of(mm[q].state),
                                strong: strong_of(mm[q].state),
                                remove_on_close: true,
                            },
                            attachment: mm[q].attachment,
                        },
                    )
                } else {
                    mm
                };
                let fs_done = if !mm.contains_key(q) && !epoch.spec_is_null() {
                    fs_mid.remove(q)
                } else {
                    fs_mid
                };
                &&& r == Ok::<DestroyOutcome, SnapshotError>(
                    DestroyOutcome {
                        snapshot_deferred: m.contains_key(p),
                        mpt_deferred: mm.contains_key(q),
                    },
                )
                &&& post.mpt_pool.as_map() == mpt_done
                &&& post.mpt_pool.count() == pre.mpt_pool.count()
                &&& fs_post.as_map() == fs_done
            }
        }
    }

    /// Idempotent logical deletion of a snapshot and its paired trie
    /// sub-store.  An untracked directory is removed at once; one with live
    /// readers is only marked, and its physical removal waits until the last
    /// reference drops and the close path observes the mark.  Destroying a
    /// never-existing or already-destroyed epoch is a no-op.  A committed
    /// path can never be open exclusively for write — writers exist only
    /// under temporary names — so the contract-violation branch below is
    /// provably unreachable.
    pub fn destroy_snapshot(&mut self, snapshot_epoch_id: EpochId, fs: &mut FsModel) -> (r: Result<
        DestroyOutcome,
        SnapshotError,
    >)
        requires
            old(self).inv(),
            old(fs).wf(),
        ensures
            final(self).inv(),
            Self::same_config(*old(self), *final(self)),
            final(fs).wf(),
            final(fs).cow_supported == old(fs).cow_supported,
            final(fs).copy_healthy == old(fs).copy_healthy,
            Self::destroy_post(*old(self), *final(self), *old(fs), *final(fs), snapshot_epoch_id, r),
    {
        let p = PathKey::Committed(snapshot_epoch_id);
        let q = PathKey::MptCommitted(snapshot_epoch_id);
        match self.pool.state_of(p) {
            Some(EntryState::Closing { .. }) => {
                return Err(SnapshotError::CloseInProgress);
            },
            Some(EntryState::Exclusive { .. }) => {
                proof {
                    assert(false);
                }
                return Err(SnapshotError::InvariantViolation);
            },
            Some(EntryState::Shared { .. }) => {
                self.pool.set_remove_on_close(p);
                proof {
                    self.lemma_inv_after_pool_update(*old(self), p);
                }
            },
            None => {
                if !snapshot_epoch_id.is_null() {
                    fs.remove_dir(p);
                }
            },
        }
        let ghost mid = *self;
        match self.mpt_pool.state_of(q) {
            Some(EntryState::Closing { .. }) => {
                return Err(SnapshotError::CloseInProgress);
            },
            Some(EntryState::Exclusive { .. }) => {
                proof {
                    assert(false);
                }
                return Err(SnapshotError::InvariantViolation);
            },
            Some(EntryState::Shared { .. }) => {
                self.mpt_pool.set_remove_on_close(q);
                proof {
                    self.lemma_inv_after_mpt_update(mid, q);
                }
            },
            None => {
                if !snapshot_epoch_id.is_null() {
                    fs.remove_dir(q);
                }
            },
        }
        Ok(
            DestroyOutcome {
                snapshot_deferred: match self.pool.state_of(p) {
                    Some(_) => true,
                    None => false,
                },
                mpt_deferred: match self.mpt_pool.state_of(q) {
                    Some(_) => true,
                    None => false,
                },
            },
        )
    }

    /// Opens a freshly created, exclusively-owned snapshot under the
    /// deterministic full-sync temporary name, keyed by epoch and expected
    /// root, for a caller that will populate it by bulk download.
    pub fn new_temp_snapshot_for_full_sync(
        &mut self,
        snapshot_epoch_id: EpochId,
        merkle_root: MerkleHash,
        epoch_height: u64,
        fs: &mut FsModel,
    ) -> (r: Result<SnapshotHandle, SnapshotError>)
        requires
            old(self).inv(),
            old(fs).wf(),
        ensures
            final(self).inv(),
            Self::same_config(*old(self), *final(self)),
            final(fs).wf(),
            final(fs).cow_supported == old(fs).cow_supported,
            final(fs).copy_healthy == old(fs).copy_healthy,
            Self::open_write_post(
                *old(self),
                *final(self),
                *old(fs),
                *final(fs),
                PathKey::FullSyncTemp(snapshot_epoch_id, merkle_root),
                true,
                epoch_height,
                r,
            ),
    {
        let temp = PathKey::FullSyncTemp(snapshot_epoch_id, merkle_root);
        self.open_snapshot_write(temp, true, epoch_height, fs)
    }

    /// Commits a fully-synced snapshot: under the registry's write lock, the
    /// full-sync temporary directory is renamed to its committed name and
    /// the registry record is appended, one linearized step.
    pub fn finalize_full_sync_snapshot(
        &mut self,
        snapshot_epoch_id: EpochId,
        merkle_root: MerkleHash,
        in_progress_snapshot_info: SnapshotInfo,
        fs: &mut FsModel,
        registry: &mut SnapshotRegistry,
    ) -> (r: Result<(), SnapshotError>)
        requires
            old(self).inv(),
            old(fs).wf(),
        ensures
            final(self).inv(),
            Self::same_config(*old(self), *final(self)),
            final(fs).wf(),
            final(fs).cow_supported == old(fs).cow_supported,
            final(fs).copy_healthy == old(fs).copy_healthy,
            Self::pools_unchanged(*old(self), *final(self)),
            ({
                let t = PathKey::FullSyncTemp(snapshot_epoch_id, merkle_root);
                let c = PathKey::Committed(snapshot_epoch_id);
                if !old(fs).as_map().contains_key(t) {
                    &&& r == Err::<(), SnapshotError>(SnapshotError::SnapshotNotFound)
                    &&& final(fs).as_map() == old(fs).as_map()
                    &&& final(registry).as_map() == old(registry).as_map()
                } else if old(fs).as_map().contains_key(c) {
                    &&& r == Err::<(), SnapshotError>(SnapshotError::SnapshotAlreadyExists)
                    &&& final(fs).as_map() == old(fs).as_map()
                    &&& final(registry).as_map() == old(registry).as_map()
                } else {
                    &&& r == Ok::<(), SnapshotError>(())
                    &&& final(fs).as_map() == old(fs).as_map().remove(t).insert(
                        c,
                        old(fs).as_map()[t],
                    )
                    &&& final(registry).as_map() == old(registry).as_map().insert(
                        snapshot_epoch_id,
                        in_progress_snapshot_info,
                    )
                }
            }),
    {
        let t = PathKey::FullSyncTemp(snapshot_epoch_id, merkle_root);
        let c = PathKey::Committed(snapshot_epoch_id);
        if !fs.dir_exists(t) {
            return Err(SnapshotError::SnapshotNotFound);
        }
        if fs.dir_exists(c) {
            return Err(SnapshotError::SnapshotAlreadyExists);
        }
        fs.rename_dir(t, c);
        registry.insert(snapshot_epoch_id, in_progress_snapshot_info);
        Ok(())
    }

    /// Attempts a copy-on-write duplication of a directory.  Returns
    /// `Ok(true)` when the clone was made, `Ok(false)` when the host cannot
    /// make one, and an error when the attempt failed while configuration
    /// mandates copy-on-write.
    pub fn try_make_snapshot_cow_copy_impl(
        &self,
        old_snapshot_path: PathKey,
        new_snapshot_path: PathKey,
        fs: &mut FsModel,
    ) -> (r: Result<bool, SnapshotError>)
        requires
            old(fs).wf(),
            old(fs).as_map().contains_key(old_snapshot_path),
            !old(fs).as_map().contains_key(new_snapshot_path),
        ensures
            final(fs).wf(),
            final(fs).cow_supported == old(fs).cow_supported,
            final(fs).copy_healthy == old(fs).copy_healthy,
            if !old(fs).cow_supported {
                r == Ok::<bool, SnapshotError>(false) && final(fs).as_map() == old(fs).as_map()
            } else if !old(fs).copy_healthy {
                r == (if self.force_cow {
                    Err::<bool, SnapshotError>(SnapshotError::SnapshotCowCreation)
                } else {
                    Ok::<bool, SnapshotError>(false)
                }) && final(fs).as_map() == old(fs).as_map()
            } else {
                r == Ok::<bool, SnapshotError>(true) && final(fs).as_map() == old(fs).as_map().insert(new_snapshot_path, old(fs).as_map()[old_snapshot_path])
            },
    {
        if !fs.cow_supported {
            return Ok(false);
        }
        if !fs.copy_healthy {
            // The clone attempt failed; any partial target is removed.
            return if self.force_cow {
                Err(SnapshotError::SnapshotCowCreation)
            } else {
                Ok(false)
            };
        }
        let img = match fs.get_image(old_snapshot_path) {
            Some(img) => img,
            None => {
                proof {
                    assert(false);
                }
                DbImage::create(false)
            },
        };
        fs.put(new_snapshot_path, img);
        Ok(true)
    }

    /// Attempts a copy-on-write duplication, treating an unsupported host as
    /// an error when copy-on-write is mandated by configuration.
    pub fn try_make_snapshot_cow_copy(
        &self,
        old_snapshot_path: PathKey,
        new_snapshot_path: PathKey,
        fs: &mut FsModel,
    ) -> (r: Result<bool, SnapshotError>)
        requires
            old(fs).wf(),
            old(fs).as_map().contains_key(old_snapshot_path),
            !old(fs).as_map().contains_key(new_snapshot_path),
        ensures
            final(fs).wf(),
            final(fs).cow_supported == old(fs).cow_supported,
            final(fs).copy_healthy == old(fs).copy_healthy,
            if old(fs).cow_supported && old(fs).copy_healthy {
                r == Ok::<bool, SnapshotError>(true) && final(fs).as_map() == old(fs).as_map().insert(new_snapshot_path, old(fs).as_map()[old_snapshot_path])
            } else if self.force_cow {
                r == Err::<bool, SnapshotError>(SnapshotError::SnapshotCowCreation) && final(fs).as_map() == old(fs).as_map()
            } else {
                r == Ok::<bool, SnapshotError>(false) && final(fs).as_map() == old(fs).as_map()
            },
    {
        match self.try_make_snapshot_cow_copy_impl(old_snapshot_path, new_snapshot_path, fs) {
            Err(e) => Err(e),
            Ok(true) => Ok(true),
            Ok(false) => {
                if self.force_cow {
                    Err(SnapshotError::SnapshotCowCreation)
                } else {
                    Ok(false)
                }
            },
        }
    }

    /// Duplicates a directory: by copy-on-write where the host supports it,
    /// else by an ordinary full copy; the full copy failing is fatal.
    pub fn try_copy_snapshot(
        &self,
        old_snapshot_path: PathKey,
        new_snapshot_path: PathKey,
        fs: &mut FsModel,
    ) -> (r: Result<CopyType, SnapshotError>)
        requires
            old(fs).wf(),
            old(fs).as_map().contains_key(old_snapshot_path),
            !old(fs).as_map().contains_key(new_snapshot_path),
        ensures
            final(fs).wf(),
            final(fs).cow_supported == old(fs).cow_supported,
            final(fs).copy_healthy == old(fs).copy_healthy,
            if old(fs).cow_supported && old(fs).copy_healthy {
                r == Ok::<CopyType, SnapshotError>(CopyType::Cow) && final(fs).as_map() == old(fs).as_map().insert(new_snapshot_path, old(fs).as_map()[old_snapshot_path])
            } else if self.force_cow {
                r == Err::<CopyType, SnapshotError>(SnapshotError::SnapshotCowCreation) && final(fs).as_map() == old(fs).as_map()
            } else if !old(fs).copy_healthy {
                r == Err::<CopyType, SnapshotError>(SnapshotError::SnapshotCopyFailure) && final(fs).as_map() == old(fs).as_map()
            } else {
                r == Ok::<CopyType, SnapshotError>(CopyType::Std) && final(fs).as_map() == old(fs).as_map().insert(new_snapshot_path, old(fs).as_map()[old_snapshot_path])
            },
    {
        match self.try_make_snapshot_cow_copy(old_snapshot_path, new_snapshot_path, fs) {
            Err(e) => Err(e),
            Ok(true) => Ok(CopyType::Cow),
            Ok(false) => {
                if !fs.copy_healthy {
                    return Err(SnapshotError::SnapshotCopyFailure);
                }
                let img = match fs.get_image(old_snapshot_path) {
                    Some(img) => img,
                    None => {
                        proof {
                            assert(false);
                        }
                        DbImage::create(false)
                    },
                };
                fs.put(new_snapshot_path, img);
                Ok(CopyType::Std)
            },
        }
    }

    /// The contract of [`Self::copy_and_merge`].
    pub open spec fn copy_and_merge_post(
        pre: Self,
        post: Self,
        fs_pre: FsModel,
        fs_post: FsModel,
        temp_path: PathKey,
        old_epoch: EpochId,
        r: Result<(), SnapshotError>,
    ) -> bool {
        let p = PathKey::Committed(old_epoch);
        let q = PathKey::MptCommitted(old_epoch);
        let m = pre.pool.as_map();
        let mm = pre.mpt_pool.as_map();
        let merged = crate::db_model::DbImageView {
            kv: fs_pre.as_map()[p].kv + fs_pre.as_map()[temp_path].dump,
            dump: fs_pre.as_map()[temp_path].dump,
            mpt_table: fs_pre.as_map()[temp_path].mpt_table,
        };
        let use_mpt = pre.use_isolated_db_for_mpt_table && fs_pre.as_map().contains_key(q);
        if !fs_pre.copy_healthy {
            r == Err::<(), SnapshotError>(SnapshotError::SnapshotCopyFailure)
                && Self::pools_unchanged(pre, post) && fs_post.as_map() == fs_pre.as_map()
        } else if !fs_pre.as_map().contains_key(p) {
            r == Err::<(), SnapshotError>(SnapshotError::SnapshotNotFound)
                && Self::pools_unchanged(pre, post) && fs_post.as_map() == fs_pre.as_map()
        } else if m.contains_key(p) && m[p].state is Exclusive {
            r == Err::<(), SnapshotError>(SnapshotError::SnapshotNotFound)
                && Self::pools_unchanged(pre, post) && fs_post.as_map() == fs_pre.as_map()
        } else if m.contains_key(p) && m[p].state is Closing {
            r == Err::<(), SnapshotError>(SnapshotError::CloseInProgress)
                && Self::pools_unchanged(pre, post) && fs_post.as_map() == fs_pre.as_map()
        } else if m.contains_key(p) {
            r == Ok::<(), SnapshotError>(()) && Self::pools_unchanged(pre, post)
                && fs_post.as_map() == fs_pre.as_map().insert(temp_path, merged)
        } else if pre.pool.count() >= pre.pool.max_open {
            r == Err::<(), SnapshotError>(SnapshotError::AdmissionWouldBlock)
                && Self::pools_unchanged(pre, post) && fs_post.as_map() == fs_pre.as_map()
        } else if use_mpt && mm.contains_key(q) && mm[q].state is Closing {
            r == Err::<(), SnapshotError>(SnapshotError::CloseInProgress)
                && Self::pools_unchanged(pre, post) && fs_post.as_map() == fs_pre.as_map()
        } else if use_mpt && mm.contains_key(q) && mm[q].state is Exclusive {
            // Unreachable under the invariant.
            true
        } else if use_mpt && !mm.contains_key(q) && pre.mpt_pool.count() >= pre.mpt_pool.max_open {
            r == Err::<(), SnapshotError>(SnapshotError::AdmissionWouldBlock)
                && Self::pools_unchanged(pre, post) && fs_post.as_map() == fs_pre.as_map()
        } else {
            &&& r == Ok::<(), SnapshotError>(())
            &&& post.pool.as_map() == m.insert(
                p,
                PoolEntry {
                    path: p,
                    state: EntryState::Closing {
                        handle: pre.pool.next_handle,
                        remove_on_close: false,
                    },
                    attachment: if use_mpt {
                        Some(q)
                    } else {
                        None
                    },
                },
            )
            &&& post.pool.count() == pre.pool.count() + 1
            &&& fs_post.as_map() == fs_pre.as_map().insert(temp_path, merged)
            &&& if use_mpt {
                if mm.contains_key(q) {
                    post.mpt_pool.as_map() == mm.insert(
                        q,
                        PoolEntry {
                            path: q,
                            state: EntryState::Shared {
                                handle: handle_of(mm[q].state),
                                strong: (strong_of(mm[q].state) + 1) as u64,
                                remove_on_close: remove_flag_of(mm[q].state),
                            },
                            attachment: mm[q].attachment,
                        },
                    ) && post.mpt_pool.count() == pre.mpt_pool.count()
                } else {
                    post.mpt_pool.as_map() == mm.insert(
                        q,
                        PoolEntry {
                            path: q,
                            state: EntryState::Shared {
                                handle: pre.mpt_pool.next_handle,
                                strong: 1,
                                remove_on_close: false,
                            },
                            attachment: None,
                        },
                    ) && post.mpt_pool.count() == pre.mpt_pool.count() + 1
                }
            } else {
                Self::mpt_pool_unchanged(pre, post)
            }
        }
    }

    /// Merges a freshly created temporary database against the prior
    /// snapshot by reading the prior snapshot in full through a read-only
    /// open: the correctness-preserving but more expensive fallback when no
    /// directory copy was made.  The read handle is dropped again once the
    /// merge is done.
    pub fn copy_and_merge(
        &mut self,
        temp_path: PathKey,
        old_snapshot_epoch_id: EpochId,
        fs: &mut FsModel,
    ) -> (r: Result<(), SnapshotError>)
        requires
            old(self).inv(),
            old(fs).wf(),
            temp_key(temp_path),
            old(fs).as_map().contains_key(temp_path),
            old(fs).as_map()[temp_path].kv.len() == 0,
            live_shared(old(self).pool, PathKey::Committed(old_snapshot_epoch_id)) ==> strong_of(
                old(self).pool.as_map()[PathKey::Committed(old_snapshot_epoch_id)].state,
            ) < u64::MAX,
            live_shared(old(self).mpt_pool, PathKey::MptCommitted(old_snapshot_epoch_id))
                ==> strong_of(
                old(self).mpt_pool.as_map()[PathKey::MptCommitted(old_snapshot_epoch_id)].state,
            ) < u64::MAX,
        ensures
            final(self).inv(),
            Self::same_config(*old(self), *final(self)),
            final(fs).wf(),
            final(fs).cow_supported == old(fs).cow_supported,
            final(fs).copy_healthy == old(fs).copy_healthy,
            Self::copy_and_merge_post(
                *old(self),
                *final(self),
                *old(fs),
                *final(fs),
                temp_path,
                old_snapshot_epoch_id,
                r,
            ),
    {
        if !fs.copy_healthy {
            return Err(SnapshotError::SnapshotCopyFailure);
        }
        let p = PathKey::Committed(old_snapshot_epoch_id);
        if !fs.dir_exists(p) {
            return Err(SnapshotError::SnapshotNotFound);
        }
        match self.open_snapshot_readonly(old_snapshot_epoch_id, false, fs) {
            Ok(ReadOutcome::Shared(h)) => {
                let old_img = match fs.get_image(p) {
                    Some(img) => img,
                    None => {
                        proof {
                            assert(false);
                        }
                        DbImage::create(false)
                    },
                };
                let mut img = match fs.get_image(temp_path) {
                    Some(img) => img,
                    None => {
                        proof {
                            assert(false);
                        }
                        DbImage::create(false)
                    },
                };
                img.copy_and_merge(&old_img);
                fs.update_image(temp_path, img);
                proof {
                    if old(self).pool.as_map().contains_key(p) {
                        crate::pool::lemma_live_shared_strong(old(self).pool, p);
                    }
                }
                self.release_snapshot(&h);
                proof {
                    if old(self).pool.as_map().contains_key(p) {
                        assert(self.pool.as_map() =~= old(self).pool.as_map());
                    } else {
                        let q = PathKey::MptCommitted(old_snapshot_epoch_id);
                        let use_mpt = old(self).use_isolated_db_for_mpt_table && old(
                            fs,
                        ).as_map().contains_key(q);
                        assert(self.pool.as_map() =~= old(self).pool.as_map().insert(
                            p,
                            PoolEntry {
                                path: p,
                                state: EntryState::Closing {
                                    handle: old(self).pool.next_handle,
                                    remove_on_close: false,
                                },
                                attachment: if use_mpt {
                                    Some(q)
                                } else {
                                    None
                                },
                            },
                        ));
                    }
                }
                Ok(())
            },
            Ok(ReadOutcome::ExclusiveBusy) => Err(SnapshotError::SnapshotNotFound),
            Ok(ReadOutcome::Absent) => Err(SnapshotError::SnapshotNotFound),
            Err(e) => Err(e),
        }
    }

    /// Whether the "latest" trie sub-store must be copied out under an era
    /// name at this height: the sub-table is isolated and the height sits on
    /// an era boundary.
    pub open spec fn spec_migration_due(self, height: u64) -> bool {
        !self.spec_mpt_table_in_current_db(height) && height % self.era_epoch_count == 0
    }

    /// Which error, if any, [`Self::new_snapshot_by_merging`] returns, as a
    /// function of the state it starts from.  `None` means the merge commits.
    pub open spec fn merge_decision(
        pre: Self,
        fs: FsModel,
        old_epoch: EpochId,
        new_epoch: EpochId,
        height: u64,
    ) -> Option<SnapshotError> {
        let temp = PathKey::MergeTemp(old_epoch, new_epoch);
        let c_new = PathKey::Committed(new_epoch);
        let p_old = PathKey::Committed(old_epoch);
        let q_old = PathKey::MptCommitted(old_epoch);
        let m = pre.pool.as_map();
        let mm = pre.mpt_pool.as_map();
        let old_null = old_epoch.spec_is_null();
        let migration_due = pre.spec_migration_due(height);
        let cow_ok = fs.cow_supported && fs.copy_healthy;
        let copying = !old_null || migration_due;
        let fresh_old = !old_null && !m.contains_key(p_old);
        let use_old_mpt = fresh_old && pre.use_isolated_db_for_mpt_table
            && fs.as_map().contains_key(q_old);
        let main_needed: int = if fresh_old {
            2
        } else {
            1
        };
        let mpt_needed: int = if use_old_mpt && !mm.contains_key(q_old) {
            1
        } else {
            0
        };
        if m.contains_key(temp) || fs.as_map().contains_key(temp) {
            Some(SnapshotError::SnapshotAlreadyExists)
        } else if fs.as_map().contains_key(c_new) {
            Some(SnapshotError::SnapshotAlreadyExists)
        } else if !old_null && !fs.as_map().contains_key(p_old) {
            Some(SnapshotError::SnapshotNotFound)
        } else if copying && pre.force_cow && !cow_ok {
            Some(SnapshotError::SnapshotCowCreation)
        } else if copying && !fs.copy_healthy {
            Some(SnapshotError::SnapshotCopyFailure)
        } else if !old_null && m.contains_key(p_old) && m[p_old].state is Closing {
            Some(SnapshotError::CloseInProgress)
        } else if !old_null && m.contains_key(p_old) && m[p_old].state is Exclusive {
            Some(SnapshotError::InvariantViolation)
        } else if use_old_mpt && mm.contains_key(q_old) && mm[q_old].state is Closing {
            Some(SnapshotError::CloseInProgress)
        } else if use_old_mpt && mm.contains_key(q_old) && mm[q_old].state is Exclusive {
            Some(SnapshotError::InvariantViolation)
        } else if pre.pool.count() + main_needed > pre.pool.max_open {
            Some(SnapshotError::AdmissionWouldBlock)
        } else if pre.mpt_pool.count() + mpt_needed > pre.mpt_pool.max_open {
            Some(SnapshotError::AdmissionWouldBlock)
        } else if migration_due && fs.as_map().contains_key(PathKey::MptMergeTemp(new_epoch)) {
            Some(SnapshotError::SnapshotAlreadyExists)
        } else if migration_due && fs.as_map().contains_key(PathKey::MptCommitted(new_epoch)) {
            Some(SnapshotError::SnapshotAlreadyExists)
        } else if migration_due && !fs.as_map().contains_key(PathKey::MptLatest) {
            Some(SnapshotError::SnapshotNotFound)
        } else {
            None
        }
    }

    /// The image committed by a merge: the prior snapshot's write history
    /// (empty in the genesis case) extended by the delta — the same history
    /// whether it was reached by copy-on-write or by the full-read fallback.
    pub open spec fn merge_result_image(
        pre: Self,
        fs: FsModel,
        old_epoch: EpochId,
        height: u64,
        delta: Seq<KvOp>,
    ) -> crate::db_model::DbImageView {
        let old_null = old_epoch.spec_is_null();
        let p_old = PathKey::Committed(old_epoch);
        let mpt_in_db = pre.spec_mpt_table_in_current_db(height);
        let cow_ok = fs.cow_supported && fs.copy_healthy;
        crate::db_model::DbImageView {
            kv: if old_null {
                delta
            } else {
                fs.as_map()[p_old].kv + delta
            },
            dump: delta,
            mpt_table: if !old_null && cow_ok {
                fs.as_map()[p_old].mpt_table && mpt_in_db
            } else {
                mpt_in_db
            },
        }
    }

    /// The contract of [`Self::new_snapshot_by_merging`].
    pub open spec fn merge_post(
        pre: Self,
        post: Self,
        fs_pre: FsModel,
        fs_post: FsModel,
        reg_pre: SnapshotRegistry,
        reg_post: SnapshotRegistry,
        old_epoch: EpochId,
        new_epoch: EpochId,
        delta: Seq<KvOp>,
        info: SnapshotInfo,
        height: u64,
        r: Result<(SnapshotInfo, MergeStats), SnapshotError>,
    ) -> bool {
        let decision = Self::merge_decision(pre, fs_pre, old_epoch, new_epoch, height);
        if decision is Some {
            &&& r == Err::<(SnapshotInfo, MergeStats), SnapshotError>(decision->0)
            &&& Self::pools_unchanged(pre, post)
            &&& fs_post.as_map() == fs_pre.as_map()
            &&& reg_post.as_map() == reg_pre.as_map()
        } else {
            let temp = PathKey::MergeTemp(old_epoch, new_epoch);
            let c_new = PathKey::Committed(new_epoch);
            let p_old = PathKey::Committed(old_epoch);
            let q_old = PathKey::MptCommitted(old_epoch);
            let m = pre.pool.as_map();
            let mm = pre.mpt_pool.as_map();
            let old_null = old_epoch.spec_is_null();
            let cow_ok = fs_pre.cow_supported && fs_pre.copy_healthy;
            let used_cow = !old_null && cow_ok;
            let migration_due = pre.spec_migration_due(height);
            let fresh_old = !old_null && !m.contains_key(p_old);
            let use_old_mpt = fresh_old && pre.use_isolated_db_for_mpt_table
                && fs_pre.as_map().contains_key(q_old);
            let h_w = pre.pool.next_handle;
            let h_r = if h_w < u64::MAX {
                (h_w + 1) as u64
            } else {
                u64::MAX
            };
            let img = Self::merge_result_image(pre, fs_pre, old_epoch, height, delta);
            let stats = MergeStats {
                used_cow,
                defragmentation_scheduled: used_cow && new_epoch.w3 & 15 == 0,
            };
            let with_temp = m.insert(
                temp,
                PoolEntry {
                    path: temp,
                    state: EntryState::Closing { handle: h_w, remove_on_close: false },
                    attachment: None,
                },
            );
            let pool_final = if fresh_old {
                with_temp.insert(
                    p_old,
                    PoolEntry {
                        path: p_old,
                        state: EntryState::Closing { handle: h_r, remove_on_close: false },
                        attachment: if use_old_mpt {
                            Some(q_old)
                        } else {
                            None
                        },
                    },
                )
            } else {
                with_temp
            };
            &&& r == Ok::<(SnapshotInfo, MergeStats), SnapshotError>((info, stats))
            &&& fs_post.as_map() == if migration_due {
                fs_pre.as_map().insert(c_new, img).insert(
                    PathKey::MptCommitted(new_epoch),
                    fs_pre.as_map()[PathKey::MptLatest],
                )
            } else {
                fs_pre.as_map().insert(c_new, img)
            }
            &&& reg_post.as_map() == reg_pre.as_map().insert(new_epoch, info)
            &&& post.pool.as_map() == pool_final
            &&& post.pool.count() == pre.pool.count() + (if fresh_old {
                2int
            } else {
                1int
            })
            &&& if use_old_mpt {
                if mm.contains_key(q_old) {
                    post.mpt_pool.as_map() == mm.insert(
                        q_old,
                        PoolEntry {
                            path: q_old,
                            state: EntryState::Shared {
                                handle: handle_of(mm[q_old].state),
                                strong: (strong_of(mm[q_old].state) + 1) as u64,
                                remove_on_close: remove_flag_of(mm[q_old].state),
                            },
                            attachment: mm[q_old].attachment,
                        },
                    ) && post.mpt_pool.count() == pre.mpt_pool.count()
                } else {
                    post.mpt_pool.as_map() == mm.insert(
                        q_old,
                        PoolEntry {
                            path: q_old,
                            state: EntryState::Shared {
                                handle: pre.mpt_pool.next_handle,
                                strong: 1,
                                remove_on_close: false,
                            },
                            attachment: None,
                        },
                    ) && post.mpt_pool.count() == pre.mpt_pool.count() + 1
                }
            } else {
                Self::mpt_pool_unchanged(pre, post)
            }
        }
    }

    /// The central algorithm: derives the snapshot for `snapshot_epoch_id`
    /// from the prior snapshot plus a delta, and commits it.
    ///
    /// The genesis case streams the delta into a fresh database and merges
    /// it against nothing.  Otherwise the prior committed directory is
    /// duplicated by copy-on-write and the delta merged into the copy
    /// against the open prior snapshot; where the host cannot clone, a fresh
    /// database is built and merged by reading the prior snapshot in full —
    /// more I/O, same resulting history.  Falling back is a configuration
    /// error instead when copy-on-write is mandated.  On an era boundary the
    /// "latest" trie sub-store is first copied out under the new epoch's
    /// name by the same copy-or-fallback policy.  Finally, under the
    /// registry lock, the temporary directory is renamed to its committed
    /// name and the registry record appended, one linearized step.
    pub fn new_snapshot_by_merging(
        &mut self,
        old_snapshot_epoch_id: EpochId,
        snapshot_epoch_id: EpochId,
        delta_mpt: &Vec<KvOp>,
        in_progress_snapshot_info: SnapshotInfo,
        new_epoch_height: u64,
        fs: &mut FsModel,
        snapshot_info_map: &mut SnapshotRegistry,
    ) -> (r: Result<(SnapshotInfo, MergeStats), SnapshotError>)
        requires
            old(self).inv(),
            old(fs).wf(),
            live_shared(old(self).pool, PathKey::Committed(old_snapshot_epoch_id)) ==> strong_of(
                old(self).pool.as_map()[PathKey::Committed(old_snapshot_epoch_id)].state,
            ) < u64::MAX,
            live_shared(old(self).mpt_pool, PathKey::MptCommitted(old_snapshot_epoch_id))
                ==> strong_of(
                old(self).mpt_pool.as_map()[PathKey::MptCommitted(old_snapshot_epoch_id)].state,
            ) < u64::MAX,
        ensures
            final(self).inv(),
            Self::same_config(*old(self), *final(self)),
            final(fs).wf(),
            final(fs).cow_supported == old(fs).cow_supported,
            final(fs).copy_healthy == old(fs).copy_healthy,
            Self::merge_post(
                *old(self),
                *final(self),
                *old(fs),
                *final(fs),
                *old(snapshot_info_map),
                *final(snapshot_info_map),
                old_snapshot_epoch_id,
                snapshot_epoch_id,
                delta_mpt@,
                in_progress_snapshot_info,
                new_epoch_height,
                r,
            ),
    {
        let temp = PathKey::MergeTemp(old_snapshot_epoch_id, snapshot_epoch_id);
        let c_new = PathKey::Committed(snapshot_epoch_id);
        let p_old = PathKey::Committed(old_snapshot_epoch_id);
        let q_old = PathKey::MptCommitted(old_snapshot_epoch_id);

        let temp_tracked = match self.pool.state_of(temp) {
            Some(_) => true,
            None => false,
        };
        if temp_tracked || fs.dir_exists(temp) {
            return Err(SnapshotError::SnapshotAlreadyExists);
        }
        if fs.dir_exists(c_new) {
            return Err(SnapshotError::SnapshotAlreadyExists);
        }
        let old_null = old_snapshot_epoch_id.is_null();
        if !old_null && !fs.dir_exists(p_old) {
            return Err(SnapshotError::SnapshotNotFound);
        }
        let mpt_in_db = self.mpt_table_in_current_db(new_epoch_height);
        let migration_due = !mpt_in_db && new_epoch_height % self.era_epoch_count == 0;
        let copying = !old_null || migration_due;
        let cow_ok = fs.cow_supported && fs.copy_healthy;
        if copying && self.force_cow && !cow_ok {
            return Err(SnapshotError::SnapshotCowCreation);
        }
        if copying && !fs.copy_healthy {
            return Err(SnapshotError::SnapshotCopyFailure);
        }
        let old_state = if old_null {
            None
        } else {
            self.pool.state_of(p_old)
        };
        match old_state {
            Some(EntryState::Closing { .. }) => {
                return Err(SnapshotError::CloseInProgress);
            },
            Some(EntryState::Exclusive { .. }) => {
                proof {
                    assert(false);
                }
                return Err(SnapshotError::InvariantViolation);
            },
            _ => {},
        }
        let fresh_old = !old_null && matches!(old_state, None);
        let use_old_mpt = fresh_old && self.use_isolated_db_for_mpt_table && fs.dir_exists(q_old);
        if use_old_mpt {
            match self.mpt_pool.state_of(q_old) {
                Some(EntryState::Closing { .. }) => {
                    return Err(SnapshotError::CloseInProgress);
                },
                Some(EntryState::Exclusive { .. }) => {
                    proof {
                        assert(false);
                    }
                    return Err(SnapshotError::InvariantViolation);
                },
                _ => {},
            }
        }
        let main_needed: usize = if fresh_old {
            2
        } else {
            1
        };
        if self.pool.max_open - self.pool.len() < main_needed {
            return Err(SnapshotError::AdmissionWouldBlock);
        }
        let mpt_fresh = use_old_mpt && match self.mpt_pool.state_of(q_old) {
            Some(_) => false,
            None => true,
        };
        let mpt_needed: usize = if mpt_fresh {
            1
        } else {
            0
        };
        if self.mpt_pool.max_open - self.mpt_pool.len() < mpt_needed {
            return Err(SnapshotError::AdmissionWouldBlock);
        }
        if migration_due {
            if fs.dir_exists(PathKey::MptMergeTemp(snapshot_epoch_id)) {
                return Err(SnapshotError::SnapshotAlreadyExists);
            }
            if fs.dir_exists(PathKey::MptCommitted(snapshot_epoch_id)) {
                return Err(SnapshotError::SnapshotAlreadyExists);
            }
            if !fs.dir_exists(PathKey::MptLatest) {
                return Err(SnapshotError::SnapshotNotFound);
            }
        }
        proof {
            assert(Self::merge_decision(
                *old(self),
                *old(fs),
                old_snapshot_epoch_id,
                snapshot_epoch_id,
                new_epoch_height,
            ) is None);
        }

        let w = if old_null {
            // Genesis: create the temporary database, stream the delta into
            // it, and merge against nothing.
            let w = match self.open_snapshot_write(temp, true, new_epoch_height, fs) {
                Ok(w) => w,
                Err(_) => {
                    proof {
                        assert(false);
                    }
                    return Err(SnapshotError::InvariantViolation);
                },
            };
            let mut img = match fs.get_image(temp) {
                Some(img) => img,
                None => {
                    proof {
                        assert(false);
                    }
                    DbImage::create(false)
                },
            };
            img.dump_delta_mpt(delta_mpt);
            img.direct_merge(None);
            fs.update_image(temp, img);
            w
        } else if cow_ok {
            // Copy-on-write: clone the prior committed directory, open the
            // clone for write, drop the carried-over delta dump, stream the
            // new delta, and merge directly against the open prior snapshot.
            match self.try_make_snapshot_cow_copy(p_old, temp, fs) {
                Ok(true) => {},
                _ => {
                    proof {
                        assert(false);
                    }
                    return Err(SnapshotError::InvariantViolation);
                },
            }
            let w = match self.open_snapshot_write(temp, false, new_epoch_height, fs) {
                Ok(w) => w,
                Err(_) => {
                    proof {
                        assert(false);
                    }
                    return Err(SnapshotError::InvariantViolation);
                },
            };
            let mut img = match fs.get_image(temp) {
                Some(img) => img,
                None => {
                    proof {
                        assert(false);
                    }
                    DbImage::create(false)
                },
            };
            img.drop_delta_mpt_dump();
            img.dump_delta_mpt(delta_mpt);
            let old_handle = match self.open_snapshot_readonly(old_snapshot_epoch_id, false, fs) {
                Ok(ReadOutcome::Shared(h)) => h,
                _ => {
                    proof {
                        assert(false);
                    }
                    return Err(SnapshotError::InvariantViolation);
                },
            };
            let old_img = match fs.get_image(p_old) {
                Some(img) => img,
                None => {
                    proof {
                        assert(false);
                    }
                    DbImage::create(false)
                },
            };
            img.direct_merge(Some(&old_img));
            fs.update_image(temp, img);
            proof {
                if old(self).pool.as_map().contains_key(p_old) {
                    crate::pool::lemma_live_shared_strong(old(self).pool, p_old);
                }
            }
            self.release_snapshot(&old_handle);
            w
        } else {
            // Fallback: build a fresh temporary database from the delta and
            // merge it by reading the prior snapshot in full.
            let w = match self.open_snapshot_write(temp, true, new_epoch_height, fs) {
                Ok(w) => w,
                Err(_) => {
                    proof {
                        assert(false);
                    }
                    return Err(SnapshotError::InvariantViolation);
                },
            };
            let mut img = match fs.get_image(temp) {
                Some(img) => img,
                None => {
                    proof {
                        assert(false);
                    }
                    DbImage::create(false)
                },
            };
            img.dump_delta_mpt(delta_mpt);
            fs.update_image(temp, img);
            match self.copy_and_merge(temp, old_snapshot_epoch_id, fs) {
                Ok(()) => {},
                Err(_) => {
                    proof {
                        assert(false);
                    }
                    return Err(SnapshotError::InvariantViolation);
                },
            }
            w
        };

        if migration_due {
            let temp_mpt = PathKey::MptMergeTemp(snapshot_epoch_id);
            match self.try_copy_snapshot(PathKey::MptLatest, temp_mpt, fs) {
                Ok(_) => {},
                Err(_) => {
                    proof {
                        assert(false);
                    }
                    return Err(SnapshotError::InvariantViolation);
                },
            }
            fs.rename_dir(temp_mpt, PathKey::MptCommitted(snapshot_epoch_id));
        }

        self.release_write_snapshot(&w);
        fs.rename_dir(temp, c_new);
        snapshot_info_map.insert(snapshot_epoch_id, in_progress_snapshot_info);
        let used_cow = !old_null && cow_ok;
        let stats = MergeStats {
            used_cow,
            defragmentation_scheduled: used_cow && (snapshot_epoch_id.w3 & 15 == 0),
        };
        proof {
            let pre = *old(self);
            let fs0 = *old(fs);
            let img = Self::merge_result_image(
                pre,
                fs0,
                old_snapshot_epoch_id,
                new_epoch_height,
                delta_mpt@,
            );
            assert(fs.as_map() =~= if pre.spec_migration_due(new_epoch_height) {
                fs0.as_map().insert(c_new, img).insert(
                    PathKey::MptCommitted(snapshot_epoch_id),
                    fs0.as_map()[PathKey::MptLatest],
                )
            } else {
                fs0.as_map().insert(c_new, img)
            });
            let h_w = pre.pool.next_handle;
            let h_r = if h_w < u64::MAX {
                (h_w + 1) as u64
            } else {
                u64::MAX
            };
            let with_temp = pre.pool.as_map().insert(
                temp,
                PoolEntry {
                    path: temp,
                    state: EntryState::Closing { handle: h_w, remove_on_close: false },
                    attachment: None,
                },
            );
            if fresh_old {
                assert(self.pool.as_map() =~= with_temp.insert(
                    p_old,
                    PoolEntry {
                        path: p_old,
                        state: EntryState::Closing { handle: h_r, remove_on_close: false },
                        attachment: if use_old_mpt {
                            Some(q_old)
                        } else {
                            None
                        },
                    },
                ));
            } else {
                assert(self.pool.as_map() =~= with_temp);
            }
        }
        Ok((in_progress_snapshot_info, stats))
    }

}

/// Joins a store directory and a directory key's name.
fn join_path(dir: &String, k: &PathKey) -> (r: String)
    ensures
        r@ == dir@ + "/"@ + spec_name(*k),
{
    let mut s = dir.clone();
    s.append("/");
    let name = crate::paths::name_of(k);
    s.append(name.as_str());
    s
}

} // verus!
