use yabs::model::{Hierarchy, MetaData};
use yabs::reconcile::{
    attach_hashes, files_to_commit, files_to_update, files_to_update_remote, ConflictReason,
    Snapshot,
};

fn ledger_with(entries: &[(&str, &[u64])]) -> Hierarchy {
    let mut h = Hierarchy::new_empty();
    for (name, stamps) in entries {
        for ts in stamps.iter() {
            let mut revs: Vec<(String, MetaData)> = Vec::new();
            revs.push((name.to_string(), MetaData::new_without_hash(*ts, 1)));
            h.update(revs);
        }
    }
    h
}

fn snapshot_with(entries: &[(&str, u64)]) -> Snapshot {
    let mut s = Snapshot::new();
    for (name, ts) in entries {
        s.insert(name.to_string(), MetaData::new_without_hash(*ts, 1));
    }
    s
}

#[test]
fn commit_empty_ledger_selects_new_file() {
    let h = Hierarchy::new_empty();
    let wd = snapshot_with(&[("a.txt", 100)]);
    let plan = files_to_commit(&wd, &h);
    assert_eq!(plan.len(), 1);
    assert_eq!(plan[0].0, "a.txt");
    assert_eq!(plan[0].1.get_timestamp(), 100);
}

#[test]
fn commit_then_update_is_noop() {
    let mut h = Hierarchy::new_empty();
    let wd = snapshot_with(&[("a.txt", 100)]);
    let mut plan = files_to_commit(&wd, &h);
    assert_eq!(plan.len(), 1);
    plan[0].1.add_hash("0123".to_string());
    h.update(plan);
    assert_eq!(h.nb_revision, 2);
    assert_eq!(h.get_number_of_files(), 1);
    let update_plan = files_to_update(&wd, &h);
    assert_eq!(update_plan.len(), 0);
}

#[test]
fn commit_selects_strictly_newer_timestamp() {
    let h = ledger_with(&[("a.txt", &[100])]);
    let wd = snapshot_with(&[("a.txt", 150)]);
    let plan = files_to_commit(&wd, &h);
    assert_eq!(plan.len(), 1);
    assert_eq!(plan[0].1.get_timestamp(), 150);
}

#[test]
fn commit_appends_second_revision() {
    let mut h = ledger_with(&[("a.txt", &[100])]);
    let wd = snapshot_with(&[("a.txt", 150)]);
    let plan = files_to_commit(&wd, &h);
    h.update(plan);
    let files = h.get_files();
    assert_eq!(files.len(), 1);
    assert_eq!(files[0].1.metadata.len(), 2);
    assert_eq!(h.get_latest_meta_data(&"a.txt".to_string()).unwrap().get_timestamp(), 150);
}

#[test]
fn commit_ignores_equal_and_older_timestamps() {
    let h = ledger_with(&[("a.txt", &[100]), ("b.txt", &[200])]);
    let wd = snapshot_with(&[("a.txt", 100), ("b.txt", 50)]);
    let plan = files_to_commit(&wd, &h);
    assert_eq!(plan.len(), 0);
}

#[test]
fn commit_twice_without_changes_selects_nothing() {
    let mut h = Hierarchy::new_empty();
    let wd = snapshot_with(&[("a.txt", 100), ("b.txt", 200)]);
    let mut plan = files_to_commit(&wd, &h);
    assert_eq!(plan.len(), 2);
    for entry in plan.iter_mut() {
        entry.1.add_hash("feed".to_string());
    }
    h.update(plan);
    let second = files_to_commit(&wd, &h);
    assert_eq!(second.len(), 0);
}

#[test]
fn attach_hashes_sets_digests_and_keeps_the_rest() {
    let h = Hierarchy::new_empty();
    let wd = snapshot_with(&[("a.txt", 100), ("b.txt", 200)]);
    let mut plan = files_to_commit(&wd, &h);
    let hashes = vec!["aaaa".to_string(), "bbbb".to_string()];
    attach_hashes(&mut plan, &hashes);
    assert_eq!(plan.len(), 2);
    assert_eq!(plan[0].0, "a.txt");
    assert_eq!(plan[0].1.get_hash(), "aaaa");
    assert_eq!(plan[0].1.get_timestamp(), 100);
    assert_eq!(plan[1].0, "b.txt");
    assert_eq!(plan[1].1.get_hash(), "bbbb");
    assert_eq!(plan[1].1.get_timestamp(), 200);
}

#[test]
fn counter_bumps_even_on_empty_update() {
    let mut h = Hierarchy::new_empty();
    assert_eq!(h.nb_revision, 1);
    h.update(Vec::new());
    assert_eq!(h.nb_revision, 2);
    assert_eq!(h.get_number_of_files(), 0);
}

#[test]
fn update_pulls_missing_file() {
    let h = ledger_with(&[("a.txt", &[100])]);
    let wd = Snapshot::new();
    let plan = files_to_update(&wd, &h);
    assert_eq!(plan.len(), 1);
    assert_eq!(plan[0].0, "a.txt");
    assert_eq!(plan[0].1.get_timestamp(), 100);
}

#[test]
fn update_pulls_latest_over_stale_recorded_copy() {
    let h = ledger_with(&[("a.txt", &[100, 200])]);
    let wd = snapshot_with(&[("a.txt", 100)]);
    let plan = files_to_update(&wd, &h);
    assert_eq!(plan.len(), 1);
    assert_eq!(plan[0].1.get_timestamp(), 200);
}

#[test]
fn update_leaves_equal_timestamp_alone() {
    let h = ledger_with(&[("a.txt", &[100, 200])]);
    let wd = snapshot_with(&[("a.txt", 200)]);
    let plan = files_to_update(&wd, &h);
    assert_eq!(plan.len(), 0);
}

#[test]
fn update_leaves_unrecognized_timestamps_alone() {
    // ahead of the ledger (a commit candidate) and anomalously old: neither
    // is pulled
    let h = ledger_with(&[("a.txt", &[100]), ("b.txt", &[100])]);
    let wd = snapshot_with(&[("a.txt", 150), ("b.txt", 50)]);
    let plan = files_to_update(&wd, &h);
    assert_eq!(plan.len(), 0);
}

#[test]
fn remote_update_treats_matching_timestamp_as_no_action() {
    let remote = ledger_with(&[("b.txt", &[200])]);
    let local = Hierarchy::new_empty();
    let wd = snapshot_with(&[("b.txt", 200)]);
    let plan = files_to_update_remote(&wd, &local, &remote).unwrap();
    assert_eq!(plan.len(), 0);
}

#[test]
fn remote_update_pulls_missing_and_stale_files() {
    let remote = ledger_with(&[("a.txt", &[100, 300]), ("b.txt", &[200])]);
    let local = ledger_with(&[("a.txt", &[100, 300])]);
    let wd = snapshot_with(&[("a.txt", 100)]);
    let plan = files_to_update_remote(&wd, &local, &remote).unwrap();
    assert_eq!(plan.len(), 2);
    assert_eq!(plan[0].0, "a.txt");
    assert_eq!(plan[0].1.get_timestamp(), 300);
    assert_eq!(plan[1].0, "b.txt");
    assert_eq!(plan[1].1.get_timestamp(), 200);
}

#[test]
fn remote_update_conflict_on_new_local_file() {
    let remote = ledger_with(&[("b.txt", &[200])]);
    let local = Hierarchy::new_empty();
    let wd = snapshot_with(&[("b.txt", 201)]);
    let conflict = files_to_update_remote(&wd, &local, &remote).unwrap_err();
    assert_eq!(conflict.filename, "b.txt");
    assert_eq!(conflict.reason, ConflictReason::NewLocalFile);
}

#[test]
fn remote_update_conflict_when_both_sides_changed() {
    let remote = ledger_with(&[("b.txt", &[200])]);
    let local = ledger_with(&[("b.txt", &[150])]);
    let wd = snapshot_with(&[("b.txt", 201)]);
    let conflict = files_to_update_remote(&wd, &local, &remote).unwrap_err();
    assert_eq!(conflict.filename, "b.txt");
    assert_eq!(conflict.reason, ConflictReason::RemoteAndWorkingChanged);
}

#[test]
fn remote_update_agreeing_ledgers_are_compatible() {
    // the working copy is ahead, but local and remote latest agree: the
    // working copy is a correct new version, nothing to do
    let remote = ledger_with(&[("b.txt", &[200])]);
    let local = ledger_with(&[("b.txt", &[200])]);
    let wd = snapshot_with(&[("b.txt", 201)]);
    let plan = files_to_update_remote(&wd, &local, &remote).unwrap();
    assert_eq!(plan.len(), 0);
}

#[test]
fn remote_update_conflict_selects_nothing_at_all() {
    // a.txt alone would be pulled, but the conflict on b.txt aborts the
    // whole update
    let remote = ledger_with(&[("a.txt", &[100]), ("b.txt", &[200])]);
    let local = Hierarchy::new_empty();
    let wd = snapshot_with(&[("b.txt", 201)]);
    let r = files_to_update_remote(&wd, &local, &remote);
    assert!(r.is_err());
}
