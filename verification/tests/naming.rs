use snapshot_manager::fs_model::FsModel;
use snapshot_manager::ids::Hash256;
use snapshot_manager::manager::SnapshotDbManagerSqlite;
use snapshot_manager::paths::{name_of, PathKey};

fn epoch(n: u64) -> Hash256 {
    Hash256 { w0: 0, w1: 0, w2: 0, w3: n }
}

fn test_manager(fs: &mut FsModel) -> SnapshotDbManagerSqlite {
    SnapshotDbManagerSqlite::new(
        String::from("snapshots"),
        String::from("mpt_snapshot"),
        4,
        false,
        None,
        100,
        fs,
    )
}

#[test]
fn committed_name_is_prefix_plus_hex() {
    let mut fs = FsModel::new(true, true);
    let m = test_manager(&mut fs);
    let name = m.get_snapshot_db_name(&epoch(1));
    let expected = format!("sqlite_{}1", "0".repeat(63));
    assert_eq!(name, expected);
}

#[test]
fn committed_name_renders_every_nibble() {
    let mut fs = FsModel::new(true, true);
    let m = test_manager(&mut fs);
    let e = Hash256 {
        w0: 0x0123456789abcdef,
        w1: 0xfedcba9876543210,
        w2: 0,
        w3: 0xff,
    };
    let name = m.get_snapshot_db_name(&e);
    let expected = format!(
        "sqlite_{}{}{}{}",
        "0123456789abcdef", "fedcba9876543210", "0".repeat(16), "00000000000000ff"
    );
    assert_eq!(name, expected);
}

#[test]
fn snapshot_db_path_joins_store_dir() {
    let mut fs = FsModel::new(true, true);
    let m = test_manager(&mut fs);
    let path = m.get_snapshot_db_path(&epoch(2));
    let expected = format!("snapshots/sqlite_{}2", "0".repeat(63));
    assert_eq!(path, expected);
}

#[test]
fn merge_temp_name_holds_both_epochs() {
    let mut fs = FsModel::new(true, true);
    let m = test_manager(&mut fs);
    let path = m.get_merge_temp_snapshot_db_path(&epoch(1), &epoch(2));
    let expected = format!(
        "snapshots/sqlite_merge_temp_{}1{}2",
        "0".repeat(63),
        "0".repeat(63)
    );
    assert_eq!(path, expected);
}

#[test]
fn full_sync_temp_name_holds_epoch_and_root() {
    let mut fs = FsModel::new(true, true);
    let m = test_manager(&mut fs);
    let path = m.get_full_sync_temp_snapshot_db_path(&epoch(3), &epoch(9));
    let expected = format!(
        "snapshots/sqlite_full_sync_temp_{}3{}9",
        "0".repeat(63),
        "0".repeat(63)
    );
    assert_eq!(path, expected);
}

#[test]
fn mpt_paths_live_under_sibling_dir() {
    let mut fs = FsModel::new(true, true);
    let m = test_manager(&mut fs);
    let path = m.get_mpt_snapshot_db_path(&epoch(4));
    let expected = format!("mpt_snapshot/sqlite_{}4", "0".repeat(63));
    assert_eq!(path, expected);
    let temp = m.get_merge_temp_mpt_snapshot_db_path(&epoch(4));
    let expected_temp = format!("mpt_snapshot/sqlite_merge_temp_{}4", "0".repeat(63));
    assert_eq!(temp, expected_temp);
}

#[test]
fn temporary_names_never_collide_with_committed_names() {
    let e1 = epoch(1);
    let e2 = epoch(2);
    let committed = name_of(&PathKey::Committed(e2));
    let merge_temp = name_of(&PathKey::MergeTemp(e1, e2));
    let full_sync_temp = name_of(&PathKey::FullSyncTemp(e2, epoch(9)));
    let mpt_temp = name_of(&PathKey::MptMergeTemp(e2));
    let latest = name_of(&PathKey::MptLatest);
    assert_ne!(committed, merge_temp);
    assert_ne!(committed, full_sync_temp);
    assert_ne!(committed, mpt_temp);
    assert_ne!(committed, latest);
    assert_eq!(latest, "latest");
}

#[test]
fn names_differ_for_different_epochs() {
    assert_ne!(
        name_of(&PathKey::Committed(epoch(1))),
        name_of(&PathKey::Committed(epoch(2)))
    );
    assert_ne!(
        name_of(&PathKey::FullSyncTemp(epoch(1), epoch(7))),
        name_of(&PathKey::FullSyncTemp(epoch(1), epoch(8)))
    );
}
