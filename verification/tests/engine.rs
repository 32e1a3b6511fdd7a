//! End-to-end scenarios: scanning, diffing, packaging, and patching over
//! plain in-memory directory contents.

use eto::diff::Diff;
use eto::error::Error;
use eto::metadata::Metadata;
use eto::package::{create_package, plan_patch, read_package_manifest, PatchPlan};
use eto::state::State;

fn entry(path: &str, data: &[u8]) -> (String, Vec<u8>) {
    (path.to_owned(), data.to_vec())
}

fn scan(entries: &Vec<(String, Vec<u8>)>) -> State {
    let marker = entries
        .iter()
        .find(|e| e.0 == "eto.json")
        .expect("directory has no marker");
    let metadata = Metadata::from_bytes(marker.1.clone()).expect("marker is malformed");
    State::from_entries(&metadata, entries).expect("scan failed")
}

fn sorted(mut v: Vec<String>) -> Vec<String> {
    v.sort();
    v
}

fn apply_plan_to(entries: &mut Vec<(String, Vec<u8>)>, plan: &PatchPlan) {
    for (path, data) in &plan.writes {
        match entries.iter_mut().find(|e| &e.0 == path) {
            Some(e) => e.1 = data.clone(),
            None => entries.push((path.clone(), data.clone())),
        }
    }
    for path in &plan.deletes {
        entries.retain(|e| &e.0 != path);
    }
}

fn dir_a() -> Vec<(String, Vec<u8>)> {
    vec![
        entry("eto.json", b"{\"version\":\"1.0\",\"ignore\":[]}"),
        entry("a.txt", b"hello"),
    ]
}

fn dir_b() -> Vec<(String, Vec<u8>)> {
    vec![
        entry("eto.json", b"{\"version\":\"2.0\",\"ignore\":[]}"),
        entry("a.txt", b"hello world"),
        entry("b.txt", b"new"),
    ]
}

#[test]
fn scenario_diff_between_two_states() {
    let a = scan(&dir_a());
    let b = scan(&dir_b());
    let diff = Diff::from_states(&a, &b);
    assert_eq!(diff.old_version, "1.0");
    assert_eq!(diff.new_version, "2.0");
    assert_eq!(sorted(diff.add.clone()), vec!["b.txt".to_owned()]);
    assert_eq!(
        sorted(diff.change.clone()),
        vec!["a.txt".to_owned(), "eto.json".to_owned()]
    );
    assert!(diff.delete.is_empty());
}

#[test]
fn diff_of_identical_states_is_empty() {
    let a = scan(&dir_a());
    let b = scan(&dir_a());
    let diff = Diff::from_states(&a, &b);
    assert!(diff.add.is_empty());
    assert!(diff.change.is_empty());
    assert!(diff.delete.is_empty());
    assert_eq!(diff.old_version, diff.new_version);
}

#[test]
fn diff_reports_deleted_files() {
    let a = scan(&dir_b());
    let b = scan(&dir_a());
    let diff = Diff::from_states(&a, &b);
    assert_eq!(sorted(diff.delete.clone()), vec!["b.txt".to_owned()]);
}

#[test]
fn scenario_package_round_trip() {
    let a_entries = dir_a();
    let b_entries = dir_b();
    let a = scan(&a_entries);
    let b = scan(&b_entries);
    let package = create_package(&a, &b, &b_entries).expect("packaging failed");

    // Apply the package to a copy of A.
    let mut patched = a_entries.clone();
    let marker = Metadata::from_bytes(a_entries[0].1.clone()).unwrap();
    let plan = plan_patch(&package, &marker).expect("planning failed");
    apply_plan_to(&mut patched, &plan);

    let find = |entries: &Vec<(String, Vec<u8>)>, path: &str| -> Vec<u8> {
        entries.iter().find(|e| e.0 == path).unwrap().1.clone()
    };
    assert_eq!(find(&patched, "a.txt"), b"hello world".to_vec());
    assert_eq!(find(&patched, "b.txt"), b"new".to_vec());
    let new_marker = Metadata::from_bytes(find(&patched, "eto.json")).unwrap();
    assert_eq!(new_marker.version, "2.0");

    // The patched copy scans exactly like B.
    let patched_state = scan(&patched);
    let b_state = scan(&b_entries);
    let mut left = patched_state.files.clone();
    let mut right = b_state.files.clone();
    left.sort();
    right.sort();
    assert_eq!(left, right);
}

#[test]
fn version_mismatch_rejected_without_mutation() {
    let a_entries = dir_a();
    let b_entries = dir_b();
    let a = scan(&a_entries);
    let b = scan(&b_entries);
    let package = create_package(&a, &b, &b_entries).expect("packaging failed");

    let mut target = dir_a();
    target[0] = entry("eto.json", b"{\"version\":\"3.0\",\"ignore\":[]}");
    let before = scan(&target);
    let marker = Metadata::from_bytes(target[0].1.clone()).unwrap();
    let result = plan_patch(&package, &marker);
    match result {
        Err(Error::VersionMismatch { expected, actual }) => {
            assert_eq!(expected, "1.0");
            assert_eq!(actual, "3.0");
        }
        _ => panic!("expected a version mismatch"),
    }
    // Planning mutates nothing: the target still scans as before.
    let after = scan(&target);
    let mut left = before.files.clone();
    let mut right = after.files.clone();
    left.sort();
    right.sort();
    assert_eq!(left, right);
}

#[test]
fn reapplying_a_package_is_idempotent() {
    let a_entries = dir_a();
    let b_entries = dir_b();
    let a = scan(&a_entries);
    let b = scan(&b_entries);
    let package = create_package(&a, &b, &b_entries).expect("packaging failed");
    let marker_a = Metadata::from_bytes(a_entries[0].1.clone()).unwrap();

    let mut patched = a_entries.clone();
    let plan = plan_patch(&package, &marker_a).expect("planning failed");
    apply_plan_to(&mut patched, &plan);
    let once = scan(&patched);

    // The patched directory now carries version 2.0, so re-planning against
    // it fails the version precondition; re-applying the same plan (as a
    // caller that kept it would) changes nothing further.
    apply_plan_to(&mut patched, &plan);
    let twice = scan(&patched);
    let mut left = once.files.clone();
    let mut right = twice.files.clone();
    left.sort();
    right.sort();
    assert_eq!(left, right);
}

#[test]
fn deleted_path_vanishes_after_patch() {
    let a_entries = dir_b();
    let b_entries = dir_a();
    let a = scan(&a_entries);
    let b = scan(&b_entries);
    let package = create_package(&a, &b, &b_entries).expect("packaging failed");
    let marker = Metadata::from_bytes(b"{\"version\":\"2.0\",\"ignore\":[]}".to_vec()).unwrap();
    let plan = plan_patch(&package, &marker).expect("planning failed");
    assert_eq!(plan.deletes, vec!["b.txt".to_owned()]);
    let mut patched = a_entries.clone();
    apply_plan_to(&mut patched, &plan);
    assert!(patched.iter().all(|e| e.0 != "b.txt"));
    // Deleting the already-absent path again is a no-op, not a failure.
    let snapshot = patched.clone();
    apply_plan_to(&mut patched, &plan);
    assert_eq!(patched, snapshot);
}

#[test]
fn missing_source_file_fails_packaging() {
    let a_entries = dir_a();
    let mut b_entries = dir_b();
    let a = scan(&a_entries);
    let b = scan(&b_entries);
    // Drop a changed file's content before packaging.
    b_entries.retain(|e| e.0 != "b.txt");
    let result = create_package(&a, &b, &b_entries);
    match result {
        Err(Error::MissingSourceFile { path }) => assert_eq!(path, "b.txt"),
        _ => panic!("expected a missing source file"),
    }
}

#[test]
fn bad_magic_rejected_before_any_parsing() {
    // A file that is not a package: the first eight bytes are wrong and the
    // rest is garbage no parser could accept.
    let mut data = b"NotAPack".to_vec();
    data.extend_from_slice(&[0xff; 64]);
    match read_package_manifest(&data) {
        Err(Error::BadMagic) => {}
        _ => panic!("expected a magic token failure"),
    }
    let marker = Metadata::from_bytes(b"{\"version\":\"1.0\",\"ignore\":[]}".to_vec()).unwrap();
    match plan_patch(&data, &marker) {
        Err(Error::BadMagic) => {}
        _ => panic!("expected a magic token failure"),
    }
}

#[test]
fn truncated_manifest_is_malformed() {
    let a_entries = dir_a();
    let b_entries = dir_b();
    let a = scan(&a_entries);
    let b = scan(&b_entries);
    let package = create_package(&a, &b, &b_entries).expect("packaging failed");
    // Keep the magic token and length prefix but cut the manifest short.
    let truncated = package[..16].to_vec();
    match read_package_manifest(&truncated) {
        Err(Error::MalformedManifest) => {}
        _ => panic!("expected a malformed manifest"),
    }
}

#[test]
fn corrupt_payload_fails_extraction() {
    let a_entries = dir_a();
    let b_entries = dir_b();
    let a = scan(&a_entries);
    let b = scan(&b_entries);
    let mut package = create_package(&a, &b, &b_entries).expect("packaging failed");
    let marker = Metadata::from_bytes(a_entries[0].1.clone()).unwrap();
    // Flip every byte of the payload block; the manifest stays readable but
    // the compressed stream no longer decodes.
    let manifest_len =
        u32::from_le_bytes([package[8], package[9], package[10], package[11]]) as usize;
    for byte in package[16 + manifest_len..].iter_mut() {
        *byte = !*byte;
    }
    assert!(read_package_manifest(&package).is_ok());
    match plan_patch(&package, &marker) {
        Err(Error::ExtractionError) => {}
        _ => panic!("expected an extraction failure"),
    }
    let err = Error::VersionMismatch { expected: "1.0".to_owned(), actual: "3.0".to_owned() };
    let message = err.describe();
    assert!(message.contains("1.0") && message.contains("3.0"));
}

#[test]
fn listing_reads_only_the_manifest() {
    let a_entries = dir_a();
    let b_entries = dir_b();
    let a = scan(&a_entries);
    let b = scan(&b_entries);
    let package = create_package(&a, &b, &b_entries).expect("packaging failed");
    let manifest = read_package_manifest(&package).expect("listing failed");
    assert_eq!(manifest.version, "0.1.0");
    assert_eq!(manifest.diff.old_version, "1.0");
    assert_eq!(manifest.diff.new_version, "2.0");
    assert_eq!(sorted(manifest.diff.add.clone()), vec!["b.txt".to_owned()]);
    // Listing needs no payload: the manifest alone, with its prefix, is
    // enough even when every payload byte is missing.
    let manifest_len =
        u32::from_le_bytes([package[8], package[9], package[10], package[11]]) as usize;
    let head = package[..12 + manifest_len].to_vec();
    let listed = read_package_manifest(&head).expect("listing the head failed");
    assert_eq!(listed.diff.new_version, "2.0");
}
