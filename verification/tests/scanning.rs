//! Scanning, ignore rules, and the marker parser.

use eto::diff::Diff;
use eto::error::Error;
use eto::hashing::hash_bytes;
use eto::metadata::Metadata;
use eto::state::State;

fn entry(path: &str, data: &[u8]) -> (String, Vec<u8>) {
    (path.to_owned(), data.to_vec())
}

fn paths(state: &State) -> Vec<String> {
    let mut v: Vec<String> = state.files.iter().map(|e| e.0.clone()).collect();
    v.sort();
    v
}

#[test]
fn hashing_matches_the_known_digest() {
    let digest = hash_bytes(&b"hello".to_vec());
    assert_eq!(
        digest,
        "2cf24dba5fb0a30e26e83b2ac5b9e29e1b161e5c1fa7425e73043362938b9824"
    );
    assert_eq!(digest.len(), 64);
}

#[test]
fn marker_parses_with_whitespace_and_either_field_order() {
    let m = Metadata::from_bytes(b"{ \"version\": \"1.2\", \"ignore\": [\"*.tmp\", \"cache\"] }".to_vec())
        .expect("marker should parse");
    assert_eq!(m.version, "1.2");
    assert_eq!(m.ignore, vec!["*.tmp".to_owned(), "cache".to_owned()]);

    let swapped = Metadata::from_bytes(b"{\n  \"ignore\": [],\n  \"version\": \"3\"\n}".to_vec())
        .expect("swapped order should parse");
    assert_eq!(swapped.version, "3");
    assert!(swapped.ignore.is_empty());
}

#[test]
fn marker_rejects_malformed_json() {
    assert!(Metadata::from_bytes(b"".to_vec()).is_none());
    assert!(Metadata::from_bytes(b"{\"version\":\"1.0\"}".to_vec()).is_none());
    assert!(Metadata::from_bytes(b"{\"version\":1,\"ignore\":[]}".to_vec()).is_none());
    assert!(Metadata::from_bytes(b"{\"version\":\"1.0\",\"ignore\":[}".to_vec()).is_none());
    assert!(Metadata::from_bytes(vec![0xff, 0xfe, 0x00]).is_none());
}

#[test]
fn marker_string_escapes_are_decoded() {
    let m = Metadata::from_bytes(
        b"{\"version\":\"a\\\"b\\\\c\\u0041\",\"ignore\":[\"x\\ny\"]}".to_vec(),
    )
    .expect("escaped marker should parse");
    assert_eq!(m.version, "a\"b\\cA");
    assert_eq!(m.ignore, vec!["x\ny".to_owned()]);
}

#[test]
fn ignored_paths_never_enter_a_snapshot() {
    let metadata = Metadata {
        version: "1.0".to_owned(),
        ignore: vec!["*.tmp".to_owned(), "cache/**".to_owned()],
    };
    let entries = vec![
        entry("eto.json", b"{\"version\":\"1.0\",\"ignore\":[\"*.tmp\",\"cache/**\"]}"),
        entry("keep.txt", b"kept"),
        entry("scratch.tmp", b"dropped"),
        entry("cache/deep/file", b"dropped"),
    ];
    let state = State::from_entries(&metadata, &entries).expect("scan failed");
    assert_eq!(paths(&state), vec!["eto.json".to_owned(), "keep.txt".to_owned()]);
}

#[test]
fn log_file_is_tracked_unless_a_pattern_ignores_it() {
    // Only the ignore patterns filter the scan: a log file next to the
    // marker is a tracked file like any other.
    let tracking = Metadata { version: "1.0".to_owned(), ignore: vec![] };
    let entries = vec![entry("eto.json", b"{}"), entry("eto.log", b"engine log")];
    let state = State::from_entries(&tracking, &entries).expect("scan failed");
    assert_eq!(paths(&state), vec!["eto.json".to_owned(), "eto.log".to_owned()]);

    // A caller that wants the log excluded lists it in the marker.
    let excluding = Metadata { version: "1.0".to_owned(), ignore: vec!["eto.log".to_owned()] };
    let state = State::from_entries(&excluding, &entries).expect("scan failed");
    assert_eq!(paths(&state), vec!["eto.json".to_owned()]);
}

#[test]
fn marker_is_tracked_even_when_ignored() {
    let metadata = Metadata {
        version: "1.0".to_owned(),
        ignore: vec!["*.json".to_owned()],
    };
    let entries = vec![
        entry("eto.json", b"{\"version\":\"1.0\",\"ignore\":[\"*.json\"]}"),
        entry("other.json", b"{}"),
    ];
    let state = State::from_entries(&metadata, &entries).expect("scan failed");
    assert_eq!(paths(&state), vec!["eto.json".to_owned()]);
}

#[test]
fn ignored_paths_never_enter_a_diff() {
    let marker_a: &[u8] = b"{\"version\":\"1.0\",\"ignore\":[\"*.tmp\"]}";
    let marker_b: &[u8] = b"{\"version\":\"2.0\",\"ignore\":[\"*.tmp\"]}";
    let a_entries = vec![entry("eto.json", marker_a), entry("x.tmp", b"one")];
    let b_entries = vec![entry("eto.json", marker_b), entry("x.tmp", b"two")];
    let ma = Metadata::from_bytes(marker_a.to_vec()).unwrap();
    let mb = Metadata::from_bytes(marker_b.to_vec()).unwrap();
    let a = State::from_entries(&ma, &a_entries).unwrap();
    let b = State::from_entries(&mb, &b_entries).unwrap();
    let diff = Diff::from_states(&a, &b);
    assert!(diff.add.is_empty());
    assert_eq!(diff.change, vec!["eto.json".to_owned()]);
    assert!(diff.delete.is_empty());
}

#[test]
fn invalid_ignore_pattern_fails_the_scan() {
    let metadata = Metadata {
        version: "1.0".to_owned(),
        ignore: vec!["a[".to_owned()],
    };
    let entries = vec![entry("eto.json", b"{\"version\":\"1.0\",\"ignore\":[\"a[\"]}")];
    match State::from_entries(&metadata, &entries) {
        Err(Error::BadIgnorePattern { pattern }) => assert_eq!(pattern, "a["),
        _ => panic!("expected a bad ignore pattern"),
    }
}

#[test]
fn scan_records_version_and_digests() {
    let metadata = Metadata {
        version: "7".to_owned(),
        ignore: vec![],
    };
    let entries = vec![entry("eto.json", b"{}"), entry("f", b"hello")];
    let state = State::from_entries(&metadata, &entries).expect("scan failed");
    assert_eq!(state.version, "7");
    let digest = state
        .files
        .iter()
        .find(|e| e.0 == "f")
        .map(|e| e.1.clone())
        .expect("f is tracked");
    assert_eq!(
        digest,
        "2cf24dba5fb0a30e26e83b2ac5b9e29e1b161e5c1fa7425e73043362938b9824"
    );
}
