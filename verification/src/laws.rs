//! The properties this layer is meant to guarantee, stated and proved over
//! the contracts of the lifecycle operations.

use vstd::prelude::*;

use crate::db_model::{content, KvOp};
use crate::fs_model::FsModel;
use crate::ids::EpochId;
use crate::manager::{
    live_shared, ReadOutcome, SnapshotDbManagerSqlite, SnapshotHandle,
};
use crate::paths::PathKey;
use crate::pool::{handle_of, OpenSnapshotPool};
use crate::registry::{SnapshotInfo, SnapshotRegistry};

verus! {

/// No double-open: the open-handle cache never holds two entries for one
/// path, so an exclusive writer and shared readers can never be registered
/// for the same directory at the same time — each path has at most one
/// entry, and an entry is in exactly one state.
pub proof fn lemma_no_double_open(pool: OpenSnapshotPool, p: PathKey)
    requires
        pool.wf(),
    ensures
        forall|i: int, j: int|
            0 <= i < pool.entries@.len() && 0 <= j < pool.entries@.len()
                && (#[trigger] pool.entries@[i]).path == p && (#[trigger] pool.entries@[j]).path
                == p ==> i == j,
{
}

/// Read sharing: asking for a snapshot that is already open shared returns
/// the very same underlying handle — every reader observes the same open
/// database — and consumes no admission from either gate.
pub proof fn lemma_read_sharing(
    pre: SnapshotDbManagerSqlite,
    post: SnapshotDbManagerSqlite,
    fs: FsModel,
    epoch: EpochId,
    try_open: bool,
    r: Result<ReadOutcome, crate::errors::SnapshotError>,
)
    requires
        pre.inv(),
        SnapshotDbManagerSqlite::open_readonly_post(pre, post, fs, epoch, try_open, r),
        live_shared(pre.pool, PathKey::Committed(epoch)),
    ensures
        r == Ok::<ReadOutcome, crate::errors::SnapshotError>(
            ReadOutcome::Shared(
                SnapshotHandle {
                    id: handle_of(pre.pool.as_map()[PathKey::Committed(epoch)].state),
                    path: PathKey::Committed(epoch),
                },
            ),
        ),
        post.pool.count() == pre.pool.count(),
        post.mpt_pool.count() == pre.mpt_pool.count(),
{
}

/// Merge correctness, genesis case: merging a delta into the sentinel "no
/// prior snapshot" commits exactly the delta as the new snapshot's write
/// history — the input of the engine's root digest — whatever the host's
/// copy-on-write capability is.
pub proof fn lemma_merge_genesis(
    pre: SnapshotDbManagerSqlite,
    post: SnapshotDbManagerSqlite,
    fs_pre: FsModel,
    fs_post: FsModel,
    reg_pre: SnapshotRegistry,
    reg_post: SnapshotRegistry,
    old_epoch: EpochId,
    new_epoch: EpochId,
    delta: Seq<KvOp>,
    info: SnapshotInfo,
    height: u64,
    r: Result<(SnapshotInfo, crate::manager::MergeStats), crate::errors::SnapshotError>,
)
    requires
        SnapshotDbManagerSqlite::merge_post(
            pre,
            post,
            fs_pre,
            fs_post,
            reg_pre,
            reg_post,
            old_epoch,
            new_epoch,
            delta,
            info,
            height,
            r,
        ),
        SnapshotDbManagerSqlite::merge_decision(pre, fs_pre, old_epoch, new_epoch, height)
            is None,
        old_epoch.spec_is_null(),
    ensures
        fs_post.as_map().contains_key(PathKey::Committed(new_epoch)),
        fs_post.as_map()[PathKey::Committed(new_epoch)].kv == delta,
{
}

/// Merge correctness, incremental case: for a fixed prior history and
/// delta, the committed write history is the prior history extended by the
/// delta — identical whether it was reached by copy-on-write duplication or
/// by the fresh-create-and-full-read fallback, so the engine's root digest
/// is the same either way.
pub proof fn lemma_merge_cow_fallback_agree(
    pre1: SnapshotDbManagerSqlite,
    post1: SnapshotDbManagerSqlite,
    fs1_pre: FsModel,
    fs1_post: FsModel,
    reg1_pre: SnapshotRegistry,
    reg1_post: SnapshotRegistry,
    info1: SnapshotInfo,
    r1: Result<(SnapshotInfo, crate::manager::MergeStats), crate::errors::SnapshotError>,
    pre2: SnapshotDbManagerSqlite,
    post2: SnapshotDbManagerSqlite,
    fs2_pre: FsModel,
    fs2_post: FsModel,
    reg2_pre: SnapshotRegistry,
    reg2_post: SnapshotRegistry,
    info2: SnapshotInfo,
    r2: Result<(SnapshotInfo, crate::manager::MergeStats), crate::errors::SnapshotError>,
    old_epoch: EpochId,
    new_epoch: EpochId,
    delta: Seq<KvOp>,
    height: u64,
)
    requires
        SnapshotDbManagerSqlite::merge_post(
            pre1,
            post1,
            fs1_pre,
            fs1_post,
            reg1_pre,
            reg1_post,
            old_epoch,
            new_epoch,
            delta,
            info1,
            height,
            r1,
        ),
        SnapshotDbManagerSqlite::merge_post(
            pre2,
            post2,
            fs2_pre,
            fs2_post,
            reg2_pre,
            reg2_post,
            old_epoch,
            new_epoch,
            delta,
            info2,
            height,
            r2,
        ),
        SnapshotDbManagerSqlite::merge_decision(pre1, fs1_pre, old_epoch, new_epoch, height)
            is None,
        SnapshotDbManagerSqlite::merge_decision(pre2, fs2_pre, old_epoch, new_epoch, height)
            is None,
        !old_epoch.spec_is_null(),
        fs1_pre.as_map()[PathKey::Committed(old_epoch)].kv == fs2_pre.as_map()[PathKey::Committed(
            old_epoch,
        )].kv,
    ensures
        fs1_post.as_map()[PathKey::Committed(new_epoch)].kv == fs2_post.as_map()[PathKey::Committed(
            new_epoch,
        )].kv,
        fs1_post.as_map()[PathKey::Committed(new_epoch)].kv == fs1_pre.as_map()[PathKey::Committed(
            old_epoch,
        )].kv + delta,
        content(fs1_post.as_map()[PathKey::Committed(new_epoch)].kv) == content(
            fs2_post.as_map()[PathKey::Committed(new_epoch)].kv,
        ),
{
}

/// Commit atomicity, lookup half: what an epoch lookup returns depends on
/// the filesystem only through the committed directories for that epoch.
/// Temporary build directories — all a crash can leave behind — are
/// invisible to it; together with the naming lemmas
/// ([`crate::paths::lemma_temp_names_not_committed`]) no partially-built
/// directory is ever reachable as a committed snapshot.
pub proof fn lemma_lookup_ignores_temporaries(
    pre: SnapshotDbManagerSqlite,
    post: SnapshotDbManagerSqlite,
    fs1: FsModel,
    fs2: FsModel,
    epoch: EpochId,
    try_open: bool,
    r: Result<ReadOutcome, crate::errors::SnapshotError>,
)
    requires
        SnapshotDbManagerSqlite::open_readonly_post(pre, post, fs1, epoch, try_open, r),
        fs2.as_map().contains_key(PathKey::Committed(epoch)) == fs1.as_map().contains_key(
            PathKey::Committed(epoch),
        ),
        fs2.as_map().contains_key(PathKey::MptCommitted(epoch)) == fs1.as_map().contains_key(
            PathKey::MptCommitted(epoch),
        ),
    ensures
        SnapshotDbManagerSqlite::open_readonly_post(pre, post, fs2, epoch, try_open, r),
{
}


/// Commit atomicity, registry half: the rename and the registry record are
/// added in one linearized step, so a registry that only names epochs whose
/// committed directory exists still does after a merge commit — no reader
/// can observe a registered epoch without its directory.
pub proof fn lemma_merge_commit_keeps_registry_covered(
    pre: SnapshotDbManagerSqlite,
    post: SnapshotDbManagerSqlite,
    fs_pre: FsModel,
    fs_post: FsModel,
    reg_pre: SnapshotRegistry,
    reg_post: SnapshotRegistry,
    old_epoch: EpochId,
    new_epoch: EpochId,
    delta: Seq<KvOp>,
    info: SnapshotInfo,
    height: u64,
    r: Result<(SnapshotInfo, crate::manager::MergeStats), crate::errors::SnapshotError>,
)
    requires
        SnapshotDbManagerSqlite::merge_post(
            pre,
            post,
            fs_pre,
            fs_post,
            reg_pre,
            reg_post,
            old_epoch,
            new_epoch,
            delta,
            info,
            height,
            r,
        ),
        forall|e: EpochId| #[trigger]
            reg_pre.as_map().contains_key(e) ==> fs_pre.as_map().contains_key(
                PathKey::Committed(e),
            ),
    ensures
        forall|e: EpochId| #[trigger]
            reg_post.as_map().contains_key(e) ==> fs_post.as_map().contains_key(
                PathKey::Committed(e),
            ),
{
    if SnapshotDbManagerSqlite::merge_decision(pre, fs_pre, old_epoch, new_epoch, height)
        is None {
        assert forall|e: EpochId| #[trigger]
            reg_post.as_map().contains_key(e) implies fs_post.as_map().contains_key(
            PathKey::Committed(e),
        ) by {
            if e != new_epoch {
                assert(reg_pre.as_map().contains_key(e));
            }
        }
    }
}

/// Destroy idempotence: destroying an epoch that nothing holds open
/// succeeds, and destroying it again is a no-op, not an error.
pub proof fn lemma_destroy_idempotent(
    pre: SnapshotDbManagerSqlite,
    mid: SnapshotDbManagerSqlite,
    post: SnapshotDbManagerSqlite,
    fs_pre: FsModel,
    fs_mid: FsModel,
    fs_post: FsModel,
    epoch: EpochId,
    r1: Result<crate::manager::DestroyOutcome, crate::errors::SnapshotError>,
    r2: Result<crate::manager::DestroyOutcome, crate::errors::SnapshotError>,
)
    requires
        SnapshotDbManagerSqlite::destroy_post(pre, mid, fs_pre, fs_mid, epoch, r1),
        SnapshotDbManagerSqlite::destroy_post(mid, post, fs_mid, fs_post, epoch, r2),
        !pre.pool.as_map().contains_key(PathKey::Committed(epoch)),
        !pre.mpt_pool.as_map().contains_key(PathKey::MptCommitted(epoch)),
    ensures
        r1 is Ok,
        r2 is Ok,
        fs_post.as_map() == fs_mid.as_map(),
        post.pool.as_map() == pre.pool.as_map(),
        post.mpt_pool.as_map() == pre.mpt_pool.as_map(),
{
    assert(fs_post.as_map() =~= fs_mid.as_map());
}

/// Admission bound: the number of concurrently open databases of one kind —
/// entries in the cache, each holding exactly one unit of admission until
/// its close completes — never exceeds the configured maximum.
pub proof fn lemma_admission_bound(pool: OpenSnapshotPool)
    requires
        pool.wf(),
    ensures
        pool.count() <= pool.max_open,
{
}

/// Admission bound, fail-fast half: when the admission gate is saturated, a
/// non-blocking open of an untracked directory reports the retryable
/// admission error and opens nothing.
pub proof fn lemma_gate_exhausted_fail_fast(
    pre: SnapshotDbManagerSqlite,
    post: SnapshotDbManagerSqlite,
    fs: FsModel,
    epoch: EpochId,
    r: Result<ReadOutcome, crate::errors::SnapshotError>,
)
    requires
        SnapshotDbManagerSqlite::open_readonly_post(pre, post, fs, epoch, true, r),
        !pre.pool.as_map().contains_key(PathKey::Committed(epoch)),
        fs.as_map().contains_key(PathKey::Committed(epoch)),
        pre.pool.count() >= pre.pool.max_open,
    ensures
        r == Err::<ReadOutcome, crate::errors::SnapshotError>(
            crate::errors::SnapshotError::SemaphoreTryAcquireError,
        ),
        post.pool.count() == pre.pool.count(),
        post.mpt_pool.count() == pre.mpt_pool.count(),
{
}

} // verus!

