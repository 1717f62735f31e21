use yabs::config::{Config, StorageMode};
use yabs::model::{Hierarchy, MetaData, MetaDataSet};
use yabs::reconcile::Snapshot;

#[test]
fn default_config_values() {
    let c = Config::new_default();
    assert_eq!(c.get_local_metadata_path(), "local-metadata.json");
    assert_eq!(c.get_remote_metadata_path(), "remote-metadata.json");
    assert_eq!(c.get_data_path(), "data");
    assert_eq!(c.get_store_path(), "store");
    assert!(matches!(c.get_storage_mode(), StorageMode::COPY));
    assert_eq!(c.get_ssh_address(), "127.0.0.1:22");
    assert_eq!(c.get_ssh_user(), "root");
    assert_eq!(c.get_ssh_password(), "password");
    assert_eq!(c.get_ssh_root_path(), "/root/Yabs");
}

#[test]
fn metadata_starts_without_hash() {
    let m = MetaData::new_without_hash(42, 7);
    assert_eq!(m.get_timestamp(), 42);
    assert_eq!(m.size, 7);
    assert_eq!(m.get_hash(), "");
}

#[test]
fn metadata_add_hash_keeps_the_rest() {
    let mut m = MetaData::new_without_hash(42, 7);
    m.add_hash("cafe".to_string());
    assert_eq!(m.get_hash(), "cafe");
    assert_eq!(m.get_timestamp(), 42);
    assert_eq!(m.size, 7);
}

#[test]
fn is_more_recent_is_strict() {
    let old = MetaData::new_without_hash(100, 1);
    let new = MetaData::new_without_hash(150, 1);
    assert!(old.is_more_recent(&new));
    assert!(!new.is_more_recent(&old));
    assert!(!old.is_more_recent(&old));
}

#[test]
fn metadata_set_tracks_last_and_timestamps() {
    let mut set = MetaDataSet::new_simple_meta_data_set(MetaData::new_without_hash(100, 1));
    set.add_revision(MetaData::new_without_hash(200, 2));
    assert_eq!(set.get_last().unwrap().get_timestamp(), 200);
    assert!(set.has_metadata_with_timestamp(100));
    assert!(set.has_metadata_with_timestamp(200));
    assert!(!set.has_metadata_with_timestamp(150));
}

#[test]
fn empty_hierarchy_tracks_nothing() {
    let h = Hierarchy::new_empty();
    assert_eq!(h.nb_revision, 1);
    assert_eq!(h.get_number_of_files(), 0);
    assert!(h.get_latest_meta_data(&"a.txt".to_string()).is_none());
    assert!(h.new_metadata(&"a.txt".to_string()));
}

#[test]
fn update_creates_then_appends() {
    let mut h = Hierarchy::new_empty();
    let mut revs: Vec<(String, MetaData)> = Vec::new();
    revs.push(("a.txt".to_string(), MetaData::new_without_hash(100, 5)));
    h.update(revs);
    assert!(!h.new_metadata(&"a.txt".to_string()));
    let mut revs2: Vec<(String, MetaData)> = Vec::new();
    revs2.push(("a.txt".to_string(), MetaData::new_without_hash(150, 6)));
    revs2.push(("b.txt".to_string(), MetaData::new_without_hash(80, 2)));
    h.update(revs2);
    assert_eq!(h.nb_revision, 3);
    assert_eq!(h.get_number_of_files(), 2);
    assert_eq!(h.get_latest_meta_data(&"a.txt".to_string()).unwrap().get_timestamp(), 150);
    assert_eq!(h.get_latest_meta_data(&"b.txt".to_string()).unwrap().get_timestamp(), 80);
    assert_eq!(h.get_files()[0].1.metadata.len(), 2);
}

#[test]
fn snapshot_lookup() {
    let mut s = Snapshot::new();
    assert_eq!(s.len(), 0);
    s.insert("x".to_string(), MetaData::new_without_hash(1, 1));
    s.insert("y".to_string(), MetaData::new_without_hash(2, 2));
    assert_eq!(s.len(), 2);
    assert!(s.contains(&"x".to_string()));
    assert!(!s.contains(&"z".to_string()));
    assert_eq!(s.get(&"y".to_string()).unwrap().get_timestamp(), 2);
    assert!(s.get(&"z".to_string()).is_none());
}
