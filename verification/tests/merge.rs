use snapshot_manager::db_model::KvOp;
use snapshot_manager::errors::SnapshotError;
use snapshot_manager::fs_model::FsModel;
use snapshot_manager::ids::Hash256;
use snapshot_manager::manager::{GetSnapshotOutcome, SnapshotDbManagerSqlite};
use snapshot_manager::paths::PathKey;
use snapshot_manager::registry::{SnapshotInfo, SnapshotRegistry};

fn epoch(n: u64) -> Hash256 {
    Hash256 { w0: 0, w1: 0, w2: 0, w3: n }
}

fn info_for(e: Hash256, parent: Hash256, height: u64) -> SnapshotInfo {
    SnapshotInfo {
        merkle_root: Hash256 { w0: 9, w1: 9, w2: 9, w3: 9 },
        parent_snapshot_epoch_id: parent,
        height,
    }
}

fn manager_with(
    fs: &mut FsModel,
    use_isolated: bool,
    isolated_height: Option<u64>,
    era: u64,
) -> SnapshotDbManagerSqlite {
    SnapshotDbManagerSqlite::new(
        String::from("snapshots"),
        String::from("mpt_snapshot"),
        8,
        use_isolated,
        isolated_height,
        era,
        fs,
    )
}

fn committed_kv(fs: &FsModel, e: Hash256) -> Vec<KvOp> {
    fs.get_image(PathKey::Committed(e)).expect("committed image").kv
}

fn merge(
    m: &mut SnapshotDbManagerSqlite,
    fs: &mut FsModel,
    reg: &mut SnapshotRegistry,
    old: Hash256,
    new: Hash256,
    delta: &Vec<KvOp>,
    height: u64,
) -> Result<(), SnapshotError> {
    m.new_snapshot_by_merging(old, new, delta, info_for(new, old, height), height, fs, reg)?;
    m.on_close(PathKey::MergeTemp(old, new), fs);
    Ok(())
}

#[test]
fn genesis_merge_commits_exactly_the_delta() {
    for cow in [true, false] {
        let mut fs = FsModel::new(cow, true);
        let mut m = manager_with(&mut fs, false, None, 100);
        let mut reg = SnapshotRegistry::new();
        let e = epoch(1);
        let delta = vec![KvOp { key: 3, value: 30 }, KvOp { key: 4, value: 40 }];
        merge(&mut m, &mut fs, &mut reg, Hash256::null(), e, &delta, 10).unwrap();
        // The committed history is the delta alone, with or without
        // copy-on-write support.
        assert_eq!(committed_kv(&fs, e), delta);
        assert!(reg.get(e).is_some());
    }
}

#[test]
fn cow_and_fallback_merges_commit_identical_histories() {
    let delta1 = vec![KvOp { key: 1, value: 10 }, KvOp { key: 2, value: 20 }];
    let delta2 = vec![KvOp { key: 2, value: 21 }, KvOp { key: 5, value: 50 }];
    let mut results: Vec<Vec<KvOp>> = Vec::new();
    for cow in [true, false] {
        let mut fs = FsModel::new(cow, true);
        let mut m = manager_with(&mut fs, false, None, 100);
        let mut reg = SnapshotRegistry::new();
        let (e1, e2) = (epoch(1), epoch(2));
        merge(&mut m, &mut fs, &mut reg, Hash256::null(), e1, &delta1, 10).unwrap();
        merge(&mut m, &mut fs, &mut reg, e1, e2, &delta2, 20).unwrap();
        // The prior snapshot was opened to merge against; finish its close.
        m.on_close(PathKey::Committed(e1), &mut fs);
        results.push(committed_kv(&fs, e2));
    }
    // Same history via copy-on-write and via the full-read fallback.
    assert_eq!(results[0], results[1]);
    let mut expected = delta1.clone();
    expected.extend(delta2.clone());
    assert_eq!(results[0], expected);
}

#[test]
fn merge_onto_missing_prior_snapshot_is_not_found() {
    let mut fs = FsModel::new(true, true);
    let mut m = manager_with(&mut fs, false, None, 100);
    let mut reg = SnapshotRegistry::new();
    let delta = vec![KvOp { key: 1, value: 1 }];
    let r = merge(&mut m, &mut fs, &mut reg, epoch(9), epoch(10), &delta, 10);
    assert!(matches!(r, Err(SnapshotError::SnapshotNotFound)));
}

#[test]
fn merge_collision_on_committed_name_already_exists() {
    let mut fs = FsModel::new(true, true);
    let mut m = manager_with(&mut fs, false, None, 100);
    let mut reg = SnapshotRegistry::new();
    let e = epoch(1);
    let delta = vec![KvOp { key: 1, value: 1 }];
    merge(&mut m, &mut fs, &mut reg, Hash256::null(), e, &delta, 10).unwrap();
    let r = merge(&mut m, &mut fs, &mut reg, Hash256::null(), e, &delta, 10);
    assert!(matches!(r, Err(SnapshotError::SnapshotAlreadyExists)));
}

#[test]
fn mandated_cow_without_support_is_a_configuration_error() {
    let mut fs = FsModel::new(false, true);
    let mut m = manager_with(&mut fs, false, None, 100);
    m.force_cow = true;
    let mut reg = SnapshotRegistry::new();
    let (e1, e2) = (epoch(1), epoch(2));
    let delta = vec![KvOp { key: 1, value: 1 }];
    // The genesis case copies nothing, so it is not affected...
    merge(&mut m, &mut fs, &mut reg, Hash256::null(), e1, &delta, 10).unwrap();
    // ...but an incremental merge must not silently fall back.
    let r = merge(&mut m, &mut fs, &mut reg, e1, e2, &delta, 20);
    assert!(matches!(r, Err(SnapshotError::SnapshotCowCreation)));
}

#[test]
fn failing_bulk_copy_is_fatal() {
    let mut fs = FsModel::new(false, false);
    let mut m = manager_with(&mut fs, false, None, 100);
    let mut reg = SnapshotRegistry::new();
    let (e1, e2) = (epoch(1), epoch(2));
    let delta = vec![KvOp { key: 1, value: 1 }];
    merge(&mut m, &mut fs, &mut reg, Hash256::null(), e1, &delta, 10).unwrap();
    let r = merge(&mut m, &mut fs, &mut reg, e1, e2, &delta, 20);
    assert!(matches!(r, Err(SnapshotError::SnapshotCopyFailure)));
}

#[test]
fn defragmentation_is_scheduled_off_the_epoch_low_bits() {
    let mut fs = FsModel::new(true, true);
    let mut m = manager_with(&mut fs, false, None, 100);
    let mut reg = SnapshotRegistry::new();
    let e1 = epoch(1);
    let delta = vec![KvOp { key: 1, value: 1 }];
    merge(&mut m, &mut fs, &mut reg, Hash256::null(), e1, &delta, 10).unwrap();

    // Epoch 16 has a zero low nibble: eligible after a cow merge.
    let (_, stats) = m
        .new_snapshot_by_merging(e1, epoch(16), &delta, info_for(epoch(16), e1, 20), 20, &mut fs, &mut reg)
        .unwrap();
    assert!(stats.used_cow);
    assert!(stats.defragmentation_scheduled);
    m.on_close(PathKey::MergeTemp(e1, epoch(16)), &mut fs);
    m.on_close(PathKey::Committed(e1), &mut fs);

    // Epoch 17 is not eligible.
    let (_, stats) = m
        .new_snapshot_by_merging(
            epoch(16),
            epoch(17),
            &delta,
            info_for(epoch(17), epoch(16), 30),
            30,
            &mut fs,
            &mut reg,
        )
        .unwrap();
    assert!(stats.used_cow);
    assert!(!stats.defragmentation_scheduled);
}

#[test]
fn era_boundary_copies_latest_trie_store_under_epoch_name() {
    let mut fs = FsModel::new(true, true);
    // Isolated trie store from height 5 on, eras of 10 epochs.
    let mut m = manager_with(&mut fs, true, Some(5), 10);
    let mut reg = SnapshotRegistry::new();
    let (e1, e2) = (epoch(1), epoch(2));
    let delta = vec![KvOp { key: 1, value: 1 }];
    // Height 20 is past the threshold and on an era boundary.
    merge(&mut m, &mut fs, &mut reg, Hash256::null(), e1, &delta, 20).unwrap();
    assert!(fs.dir_exists(PathKey::MptCommitted(e1)));
    // Height 21 is not on a boundary: no era copy for this epoch.
    merge(&mut m, &mut fs, &mut reg, e1, e2, &delta, 21).unwrap();
    m.on_close(PathKey::Committed(e1), &mut fs);
    assert!(!fs.dir_exists(PathKey::MptCommitted(e2)));
}

#[test]
fn reader_of_isolated_epoch_holds_its_trie_store_open() {
    let mut fs = FsModel::new(true, true);
    let mut m = manager_with(&mut fs, true, Some(5), 10);
    let mut reg = SnapshotRegistry::new();
    let e1 = epoch(1);
    let delta = vec![KvOp { key: 1, value: 1 }];
    merge(&mut m, &mut fs, &mut reg, Hash256::null(), e1, &delta, 20).unwrap();
    assert!(fs.dir_exists(PathKey::MptCommitted(e1)));

    let h = match m.get_snapshot_by_epoch_id(e1, false, &fs) {
        Ok(GetSnapshotOutcome::Shared(h)) => h,
        other => panic!("expected a shared handle, got {:?}", other),
    };
    // Opening the snapshot opened its isolated trie sub-store too.
    assert_eq!(m.mpt_pool.len(), 1);

    m.release_snapshot(&h);
    m.on_close(PathKey::Committed(e1), &mut fs);
    // Closing the snapshot dropped the trie store's last reference; its own
    // close completes afterwards.
    assert_eq!(m.mpt_pool.len(), 1);
    m.on_close_mpt_snapshot(PathKey::MptCommitted(e1), &mut fs);
    assert_eq!(m.mpt_pool.len(), 0);
}

#[test]
fn registry_record_is_appended_with_the_rename() {
    let mut fs = FsModel::new(true, true);
    let mut m = manager_with(&mut fs, false, None, 100);
    let mut reg = SnapshotRegistry::new();
    let e = epoch(1);
    let delta = vec![KvOp { key: 1, value: 1 }];
    let info = info_for(e, Hash256::null(), 10);
    m.new_snapshot_by_merging(Hash256::null(), e, &delta, info, 10, &mut fs, &mut reg)
        .unwrap();
    assert_eq!(reg.get(e), Some(info));
    assert!(fs.dir_exists(PathKey::Committed(e)));
}

#[test]
fn destroy_of_isolated_snapshot_defers_both_stores_while_open() {
    let mut fs = FsModel::new(true, true);
    let mut m = manager_with(&mut fs, true, Some(5), 10);
    let mut reg = SnapshotRegistry::new();
    let e1 = epoch(1);
    let delta = vec![KvOp { key: 1, value: 1 }];
    merge(&mut m, &mut fs, &mut reg, Hash256::null(), e1, &delta, 20).unwrap();

    let h = match m.get_snapshot_by_epoch_id(e1, false, &fs) {
        Ok(GetSnapshotOutcome::Shared(h)) => h,
        other => panic!("expected a shared handle, got {:?}", other),
    };
    let r = m.destroy_snapshot(e1, &mut fs).unwrap();
    // Both the snapshot and its paired trie sub-store are only marked while
    // the reader lives.
    assert!(r.snapshot_deferred);
    assert!(r.mpt_deferred);
    assert!(fs.dir_exists(PathKey::Committed(e1)));
    assert!(fs.dir_exists(PathKey::MptCommitted(e1)));

    m.release_snapshot(&h);
    m.on_close(PathKey::Committed(e1), &mut fs);
    assert!(!fs.dir_exists(PathKey::Committed(e1)));
    // The trie sub-store's own close observes its mark afterwards.
    assert!(fs.dir_exists(PathKey::MptCommitted(e1)));
    m.on_close_mpt_snapshot(PathKey::MptCommitted(e1), &mut fs);
    assert!(!fs.dir_exists(PathKey::MptCommitted(e1)));
}

#[test]
fn destroying_the_sentinel_epoch_is_a_no_op() {
    let mut fs = FsModel::new(true, true);
    let mut m = manager_with(&mut fs, false, None, 100);
    let r = m.destroy_snapshot(Hash256::null(), &mut fs).unwrap();
    assert!(!r.snapshot_deferred);
    assert!(!r.mpt_deferred);
}
