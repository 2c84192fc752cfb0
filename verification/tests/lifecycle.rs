use snapshot_manager::db_model::KvOp;
use snapshot_manager::errors::SnapshotError;
use snapshot_manager::fs_model::FsModel;
use snapshot_manager::ids::Hash256;
use snapshot_manager::manager::{GetSnapshotOutcome, SnapshotDbManagerSqlite, SnapshotHandle};
use snapshot_manager::paths::PathKey;
use snapshot_manager::registry::{SnapshotInfo, SnapshotRegistry};

fn epoch(n: u64) -> Hash256 {
    Hash256 { w0: 0, w1: 0, w2: 0, w3: n }
}

fn info_for(e: Hash256, parent: Hash256, height: u64) -> SnapshotInfo {
    SnapshotInfo {
        merkle_root: Hash256 { w0: 9, w1: 9, w2: 9, w3: 9 },
        parent_snapshot_epoch_id: parent,
        height,
    }
}

fn plain_manager(max_open: u16, fs: &mut FsModel) -> SnapshotDbManagerSqlite {
    SnapshotDbManagerSqlite::new(
        String::from("snapshots"),
        String::from("mpt_snapshot"),
        max_open,
        false,
        None,
        100,
        fs,
    )
}

/// Commits a genesis snapshot for `e` and completes the temporary
/// directory's asynchronous close, freeing its admission.
fn commit_genesis(
    m: &mut SnapshotDbManagerSqlite,
    fs: &mut FsModel,
    reg: &mut SnapshotRegistry,
    e: Hash256,
    height: u64,
) {
    let delta = vec![KvOp { key: 1, value: 10 }];
    let r = m.new_snapshot_by_merging(
        Hash256::null(),
        e,
        &delta,
        info_for(e, Hash256::null(), height),
        height,
        fs,
        reg,
    );
    assert!(r.is_ok());
    m.on_close(PathKey::MergeTemp(Hash256::null(), e), fs);
}

fn open_shared(
    m: &mut SnapshotDbManagerSqlite,
    fs: &FsModel,
    e: Hash256,
    try_open: bool,
) -> SnapshotHandle {
    match m.get_snapshot_by_epoch_id(e, try_open, fs) {
        Ok(GetSnapshotOutcome::Shared(h)) => h,
        other => panic!("expected a shared handle, got {:?}", other),
    }
}

#[test]
fn null_epoch_is_served_without_cache_or_gate() {
    let mut fs = FsModel::new(true, true);
    let mut m = plain_manager(1, &mut fs);
    let r = m.get_snapshot_by_epoch_id(Hash256::null(), true, &fs);
    assert!(matches!(r, Ok(GetSnapshotOutcome::NullSnapshot)));
    assert_eq!(m.pool.len(), 0);
}

#[test]
fn missing_epoch_is_absent() {
    let mut fs = FsModel::new(true, true);
    let mut m = plain_manager(4, &mut fs);
    let r = m.get_snapshot_by_epoch_id(epoch(5), true, &fs);
    assert!(matches!(r, Ok(GetSnapshotOutcome::Absent)));
}

#[test]
fn no_double_open_for_write() {
    let mut fs = FsModel::new(true, true);
    let mut m = plain_manager(4, &mut fs);
    let root = epoch(77);
    let first = m.new_temp_snapshot_for_full_sync(epoch(1), root, 10, &mut fs);
    assert!(first.is_ok());
    // A second writer for the same temporary path collides in the cache.
    let second = m.new_temp_snapshot_for_full_sync(epoch(1), root, 10, &mut fs);
    assert!(matches!(second, Err(SnapshotError::SnapshotAlreadyExists)));
}

#[test]
fn read_sharing_returns_one_handle_and_releases_admission_once() {
    let mut fs = FsModel::new(true, true);
    let mut m = plain_manager(4, &mut fs);
    let mut reg = SnapshotRegistry::new();
    let e = epoch(1);
    commit_genesis(&mut m, &mut fs, &mut reg, e, 10);
    assert_eq!(m.pool.len(), 0);

    let h1 = open_shared(&mut m, &fs, e, false);
    let h2 = open_shared(&mut m, &fs, e, true);
    let h3 = open_shared(&mut m, &fs, e, true);
    // All readers share the same underlying open database.
    assert_eq!(h1.id, h2.id);
    assert_eq!(h2.id, h3.id);
    // Only one admission was consumed for the three readers.
    assert_eq!(m.pool.len(), 1);

    m.release_snapshot(&h1);
    m.release_snapshot(&h2);
    m.release_snapshot(&h3);
    // Teardown has started but the admission is still held.
    assert_eq!(m.pool.len(), 1);
    m.on_close(PathKey::Committed(e), &mut fs);
    // The close released the admission exactly once.
    assert_eq!(m.pool.len(), 0);
}

#[test]
fn reopening_during_async_close_must_wait() {
    let mut fs = FsModel::new(true, true);
    let mut m = plain_manager(4, &mut fs);
    let mut reg = SnapshotRegistry::new();
    let e = epoch(1);
    commit_genesis(&mut m, &mut fs, &mut reg, e, 10);
    let h = open_shared(&mut m, &fs, e, false);
    m.release_snapshot(&h);
    // The last reference is gone but the close has not completed: the path
    // may not be opened again yet.
    let r = m.get_snapshot_by_epoch_id(e, false, &fs);
    assert!(matches!(r, Err(SnapshotError::CloseInProgress)));
    m.on_close(PathKey::Committed(e), &mut fs);
    let h2 = open_shared(&mut m, &fs, e, false);
    m.release_snapshot(&h2);
    m.on_close(PathKey::Committed(e), &mut fs);
}

#[test]
fn admission_bound_is_enforced_and_blocking_callers_proceed_after_close() {
    let mut fs = FsModel::new(true, true);
    let mut m = plain_manager(2, &mut fs);
    let mut reg = SnapshotRegistry::new();
    let (e1, e2, e3) = (epoch(1), epoch(2), epoch(3));
    // Committing needs one admission for the temporary writer, freed by
    // on_close inside the helper.
    commit_genesis(&mut m, &mut fs, &mut reg, e1, 10);
    commit_genesis(&mut m, &mut fs, &mut reg, e2, 20);
    commit_genesis(&mut m, &mut fs, &mut reg, e3, 30);

    let h1 = open_shared(&mut m, &fs, e1, false);
    let h2 = open_shared(&mut m, &fs, e2, false);
    assert_eq!(m.pool.len(), 2);
    // The admission gate is saturated: the best-effort path fails fast...
    let r3 = m.get_snapshot_by_epoch_id(e3, true, &fs);
    assert!(matches!(r3, Err(SnapshotError::SemaphoreTryAcquireError)));
    // ...and the critical path would wait.
    let r3b = m.get_snapshot_by_epoch_id(e3, false, &fs);
    assert!(matches!(r3b, Err(SnapshotError::AdmissionWouldBlock)));
    assert_eq!(m.pool.len(), 2);

    // Once one snapshot fully closes, the waiting open succeeds.
    m.release_snapshot(&h1);
    m.on_close(PathKey::Committed(e1), &mut fs);
    let h3 = open_shared(&mut m, &fs, e3, false);
    assert_eq!(m.pool.len(), 2);

    m.release_snapshot(&h2);
    m.release_snapshot(&h3);
    m.on_close(PathKey::Committed(e2), &mut fs);
    m.on_close(PathKey::Committed(e3), &mut fs);
    assert_eq!(m.pool.len(), 0);
}

#[test]
fn destroy_of_absent_epoch_is_a_no_op() {
    let mut fs = FsModel::new(true, true);
    let mut m = plain_manager(4, &mut fs);
    let e = epoch(42);
    let r1 = m.destroy_snapshot(e, &mut fs);
    assert!(r1.is_ok());
    let r2 = m.destroy_snapshot(e, &mut fs);
    assert!(r2.is_ok());
}

#[test]
fn destroy_with_live_readers_defers_removal_until_last_close() {
    let mut fs = FsModel::new(true, true);
    let mut m = plain_manager(4, &mut fs);
    let mut reg = SnapshotRegistry::new();
    let e = epoch(1);
    commit_genesis(&mut m, &mut fs, &mut reg, e, 10);
    let h = open_shared(&mut m, &fs, e, false);

    let r = m.destroy_snapshot(e, &mut fs).unwrap();
    assert!(r.snapshot_deferred);
    // The directory is still there while a reader holds the snapshot.
    assert!(fs.dir_exists(PathKey::Committed(e)));

    m.release_snapshot(&h);
    assert!(fs.dir_exists(PathKey::Committed(e)));
    m.on_close(PathKey::Committed(e), &mut fs);
    // Gone once the close observed the removal mark.
    assert!(!fs.dir_exists(PathKey::Committed(e)));

    // Destroying again is a no-op, not an error.
    let r2 = m.destroy_snapshot(e, &mut fs).unwrap();
    assert!(!r2.snapshot_deferred);
}

#[test]
fn destroy_of_unopened_epoch_removes_directory_immediately() {
    let mut fs = FsModel::new(true, true);
    let mut m = plain_manager(4, &mut fs);
    let mut reg = SnapshotRegistry::new();
    let e = epoch(1);
    commit_genesis(&mut m, &mut fs, &mut reg, e, 10);
    assert!(fs.dir_exists(PathKey::Committed(e)));
    let r = m.destroy_snapshot(e, &mut fs).unwrap();
    assert!(!r.snapshot_deferred);
    assert!(!fs.dir_exists(PathKey::Committed(e)));
}

#[test]
fn crash_before_finalize_leaves_epoch_unreachable() {
    let mut fs = FsModel::new(true, true);
    let mut m = plain_manager(4, &mut fs);
    let mut reg = SnapshotRegistry::new();
    let e = epoch(8);
    let root = epoch(99);
    let w = m.new_temp_snapshot_for_full_sync(e, root, 10, &mut fs).unwrap();
    // The temporary directory is populated but the process "crashes" before
    // the final rename: the epoch maps to nothing.
    let r = m.get_snapshot_by_epoch_id(e, true, &fs);
    assert!(matches!(r, Ok(GetSnapshotOutcome::Absent)));
    assert!(reg.get(e).is_none());

    // After recovery the commit goes through and only then does the lookup
    // see a fully valid snapshot.
    m.release_write_snapshot(&w);
    m.on_close(PathKey::FullSyncTemp(e, root), &mut fs);
    let info = info_for(e, Hash256::null(), 10);
    m.finalize_full_sync_snapshot(e, root, info, &mut fs, &mut reg)
        .unwrap();
    assert!(reg.get(e).is_some());
    let h = open_shared(&mut m, &fs, e, false);
    m.release_snapshot(&h);
    m.on_close(PathKey::Committed(e), &mut fs);
}

#[test]
fn finalize_without_temp_directory_is_not_found() {
    let mut fs = FsModel::new(true, true);
    let mut m = plain_manager(4, &mut fs);
    let mut reg = SnapshotRegistry::new();
    let e = epoch(8);
    let info = info_for(e, Hash256::null(), 10);
    let r = m.finalize_full_sync_snapshot(e, epoch(99), info, &mut fs, &mut reg);
    assert!(matches!(r, Err(SnapshotError::SnapshotNotFound)));
}
