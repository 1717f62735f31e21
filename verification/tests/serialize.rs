use rustc_serialize::json::Json;

use yabs::model::{Hierarchy, MetaData, MetaDataSet};
use yabs::serialize::serialize_hierarchy;

fn revision(timestamp: u64, size: u64, hash: &str) -> MetaData {
    let mut m = MetaData::new_without_hash(timestamp, size);
    m.add_hash(hash.to_string());
    m
}

#[test]
fn empty_ledger_serialization() {
    let h = Hierarchy::new_empty();
    assert_eq!(serialize_hierarchy(&h), r#"{"revision_count":1,"files":{}}"#);
}

#[test]
fn one_file_ledger_serialization() {
    let mut h = Hierarchy::new_empty();
    h.update(vec![("a.txt".to_string(), revision(100, 5, "abcd"))]);
    assert_eq!(
        serialize_hierarchy(&h),
        r#"{"revision_count":2,"files":{"a.txt":{"revisions":[{"timestamp":100,"size":5,"hash":"abcd","stored_hash":""}]}}}"#
    );
}

#[test]
fn two_files_two_revisions_serialization() {
    let mut h = Hierarchy::new_empty();
    h.update(vec![
        ("a.txt".to_string(), revision(100, 5, "aa")),
        ("b.txt".to_string(), revision(7, 0, "bb")),
    ]);
    h.update(vec![("a.txt".to_string(), revision(150, 6, "cc"))]);
    let mut expected = String::new();
    expected.push_str(r#"{"revision_count":3,"files":{"#);
    expected.push_str(r#""a.txt":{"revisions":[{"timestamp":100,"size":5,"hash":"aa","stored_hash":""},"#);
    expected.push_str(r#"{"timestamp":150,"size":6,"hash":"cc","stored_hash":""}]},"#);
    expected.push_str(r#""b.txt":{"revisions":[{"timestamp":7,"size":0,"hash":"bb","stored_hash":""}]}}}"#);
    assert_eq!(serialize_hierarchy(&h), expected);
}

#[test]
fn serialization_escapes_json_string_characters() {
    let mut h = Hierarchy::new_empty();
    h.update(vec![("a\"b\\c\nd".to_string(), revision(1, 2, "hh"))]);
    let text = serialize_hierarchy(&h);
    assert!(text.contains(r#""a\"b\\c\u000ad":"#));
}

#[test]
fn serialization_is_valid_json() {
    let mut h = Hierarchy::new_empty();
    h.update(vec![
        ("dir/x.bin".to_string(), revision(1234567890, 42, "deadbeef")),
        ("weird \"name\"".to_string(), revision(5, 0, "")),
    ]);
    let text = serialize_hierarchy(&h);
    let json = Json::from_str(&text).expect("emitter produced invalid JSON");
    assert_eq!(json.find("revision_count").and_then(Json::as_i64), Some(2));
    let files = json.find("files").and_then(Json::as_object).unwrap();
    assert_eq!(files.len(), 2);
    let revs = files["weird \"name\""]
        .find("revisions")
        .and_then(Json::as_array)
        .unwrap();
    assert_eq!(revs.len(), 1);
    assert_eq!(revs[0].find("timestamp").and_then(Json::as_u64), Some(5));
    let x = files["dir/x.bin"]
        .find("revisions")
        .and_then(Json::as_array)
        .unwrap();
    assert_eq!(x[0].find("hash").and_then(Json::as_string), Some("deadbeef"));
    assert_eq!(x[0].find("size").and_then(Json::as_u64), Some(42));
}

#[test]
fn from_entries_accepts_a_well_formed_ledger() {
    let files = vec![(
        "a.txt".to_string(),
        MetaDataSet {
            metadata: vec![revision(1, 2, "aa")],
        },
    )];
    let h = Hierarchy::from_entries(3, files).unwrap();
    assert_eq!(h.nb_revision, 3);
    assert_eq!(h.get_number_of_files(), 1);
}

#[test]
fn from_entries_rejects_malformed_ledgers() {
    // counter below one
    assert!(Hierarchy::from_entries(0, Vec::new()).is_none());
    // an empty revision history
    let empty_history = vec![("a.txt".to_string(), MetaDataSet { metadata: vec![] })];
    assert!(Hierarchy::from_entries(1, empty_history).is_none());
    // a duplicated name
    let duplicated = vec![
        (
            "a.txt".to_string(),
            MetaDataSet {
                metadata: vec![revision(1, 2, "aa")],
            },
        ),
        (
            "a.txt".to_string(),
            MetaDataSet {
                metadata: vec![revision(3, 4, "bb")],
            },
        ),
    ];
    assert!(Hierarchy::from_entries(1, duplicated).is_none());
}
