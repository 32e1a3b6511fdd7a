//! The manifest JSON codec and the container framing, cross-checked
//! against an independent JSON parser.

use eto::diff::Diff;
use eto::manifest::Manifest;

fn sample_manifest() -> Manifest {
    Manifest {
        version: "0.1.0".to_owned(),
        diff: Diff {
            old_version: "1.0".to_owned(),
            new_version: "2.0".to_owned(),
            add: vec!["b.txt".to_owned()],
            change: vec!["a.txt".to_owned(), "eto.json".to_owned()],
            delete: vec![],
        },
    }
}

#[test]
fn manifest_round_trips_through_bytes() {
    let m = sample_manifest();
    let bytes = m.to_bytes();
    let back = Manifest::from_bytes(bytes).expect("round trip failed");
    assert_eq!(back.version, "0.1.0");
    assert_eq!(back.diff.old_version, "1.0");
    assert_eq!(back.diff.new_version, "2.0");
    assert_eq!(back.diff.add, vec!["b.txt".to_owned()]);
    assert_eq!(back.diff.change, vec!["a.txt".to_owned(), "eto.json".to_owned()]);
    assert!(back.diff.delete.is_empty());
}

#[test]
fn manifest_round_trips_awkward_strings() {
    let m = Manifest {
        version: "0.1.0".to_owned(),
        diff: Diff {
            old_version: "v\"1\\0\"\n\t".to_owned(),
            new_version: "π — ☃".to_owned(),
            add: vec!["dir/quo\"te.txt".to_owned(), "".to_owned()],
            change: vec!["ctrl\u{0001}char".to_owned()],
            delete: vec!["back\\slash".to_owned()],
        },
    };
    let bytes = m.to_bytes();
    let back = Manifest::from_bytes(bytes).expect("round trip failed");
    assert_eq!(back.diff.old_version, "v\"1\\0\"\n\t");
    assert_eq!(back.diff.new_version, "π — ☃");
    assert_eq!(back.diff.add, vec!["dir/quo\"te.txt".to_owned(), "".to_owned()]);
    assert_eq!(back.diff.change, vec!["ctrl\u{0001}char".to_owned()]);
    assert_eq!(back.diff.delete, vec!["back\\slash".to_owned()]);
}

#[test]
fn manifest_output_is_valid_json_elsewhere() {
    let m = sample_manifest();
    let bytes = m.to_bytes();
    let value: serde_json::Value =
        serde_json::from_slice(&bytes).expect("an independent parser must accept the output");
    assert_eq!(value["version"].as_str(), Some("0.1.0"));
    assert_eq!(value["diff"]["old_version"].as_str(), Some("1.0"));
    assert_eq!(value["diff"]["new_version"].as_str(), Some("2.0"));
    assert_eq!(value["diff"]["add"][0].as_str(), Some("b.txt"));
    assert_eq!(value["diff"]["change"][1].as_str(), Some("eto.json"));
    assert_eq!(value["diff"]["delete"].as_array().map(|a| a.len()), Some(0));
}

#[test]
fn escaped_output_is_valid_json_elsewhere() {
    let m = Manifest {
        version: "0.1.0".to_owned(),
        diff: Diff {
            old_version: "a\"b\\c\u{0007}".to_owned(),
            new_version: "ok".to_owned(),
            add: vec![],
            change: vec![],
            delete: vec![],
        },
    };
    let bytes = m.to_bytes();
    let value: serde_json::Value =
        serde_json::from_slice(&bytes).expect("an independent parser must accept the output");
    assert_eq!(value["diff"]["old_version"].as_str(), Some("a\"b\\c\u{0007}"));
}

#[test]
fn manifest_parser_tolerates_whitespace() {
    let text = b"{\"version\": \"0.1.0\" , \"diff\": {\"old_version\": \"1\",\n \"new_version\": \"2\", \"add\": [ \"x\" , \"y\" ], \"change\": [], \"delete\": [\"z\"]} }";
    let m = Manifest::from_bytes(text.to_vec()).expect("whitespace should be accepted");
    assert_eq!(m.diff.add, vec!["x".to_owned(), "y".to_owned()]);
    assert_eq!(m.diff.delete, vec!["z".to_owned()]);
}

#[test]
fn surrogate_pair_escapes_are_decoded() {
    let text = b"{\"version\":\"\\ud83d\\ude00\",\"diff\":{\"old_version\":\"1\",\"new_version\":\"2\",\"add\":[],\"change\":[],\"delete\":[]}}";
    let m = Manifest::from_bytes(text.to_vec()).expect("a surrogate pair should decode");
    assert_eq!(m.version, "\u{1F600}");
    // A lone surrogate half is not a scalar and is rejected.
    let lone = b"{\"version\":\"\\ud83d\",\"diff\":{\"old_version\":\"1\",\"new_version\":\"2\",\"add\":[],\"change\":[],\"delete\":[]}}";
    assert!(Manifest::from_bytes(lone.to_vec()).is_none());
    // An astral character round-trips through the serialiser as raw UTF-8.
    let back = Manifest::from_bytes(m.to_bytes()).expect("round trip failed");
    assert_eq!(back.version, "\u{1F600}");
}

#[test]
fn manifest_parser_rejects_wrong_shapes() {
    assert!(Manifest::from_bytes(b"".to_vec()).is_none());
    assert!(Manifest::from_bytes(b"{}".to_vec()).is_none());
    assert!(Manifest::from_bytes(b"{\"version\":\"0.1.0\"}".to_vec()).is_none());
    // Trailing content after the object is rejected.
    let mut good = sample_manifest().to_bytes();
    let mut with_tail = good.clone();
    with_tail.extend_from_slice(b"x");
    assert!(Manifest::from_bytes(with_tail).is_none());
    // Truncation is rejected.
    good.pop();
    assert!(Manifest::from_bytes(good).is_none());
}
