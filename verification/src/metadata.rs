//! The tracked-directory marker.
//!
//! A directory managed by the engine carries a marker file, `eto.json`, at
//! its root: a JSON object with the directory's current version and an
//! ordered list of glob patterns naming files a scan must skip. The marker
//! is read-only input to the engine; it is itself a tracked file, so a
//! version bump shows up in diffs like any other content change.

use vstd::prelude::*;
use vstd::utf8::{decode_utf8, valid_utf8};

use crate::json::{
    parse_string, parse_string_array, parse_string_array_x, parse_string_x, parse_sym, parse_sym_x,
    skip_ws, skip_ws_x,
};
use crate::text::{bytes_to_string, chars_to_string, string_to_chars};

verus! {

/// The mathematical reading of a marker: a version and its ignore patterns.
pub struct MetadataView {
    pub version: Seq<char>,
    pub ignore: Seq<Seq<char>>,
}

/// The parsed content of a directory's marker file.
pub struct Metadata {
    /// The current version of the installation.
    pub version: String,
    /// Glob patterns of files to skip when scanning.
    pub ignore: Vec<String>,
}

impl View for Metadata {
    type V = MetadataView;

    open spec fn view(&self) -> MetadataView {
        MetadataView { version: self.version@, ignore: self.ignore.deep_view() }
    }
}

/// The tail of a marker object after its opening brace and first key, when
/// the version came first: `: V , "ignore" : [..] }` and then the end.
pub open spec fn spec_parse_marker_version_first(s: Seq<char>, p: int) -> Option<MetadataView> {
    match parse_string(s, p) {
        None => None,
        Some((version, p4)) => match parse_sym(s, p4, ',') {
            None => None,
            Some(p5) => match parse_string(s, p5) {
                None => None,
                Some((k2, p6)) => if k2 == "ignore"@ {
                    match parse_sym(s, p6, ':') {
                        None => None,
                        Some(p7) => match parse_string_array(s, p7) {
                            None => None,
                            Some((ignore, p8)) => match parse_sym(s, p8, '}') {
                                None => None,
                                Some(p9) => if skip_ws(s, p9) == s.len() {
                                    Some(MetadataView { version, ignore })
                                } else {
                                    None
                                },
                            },
                        },
                    }
                } else {
                    None
                },
            },
        },
    }
}

/// The tail of a marker object after its opening brace and first key, when
/// the ignore list came first: `: [..] , "version" : V }` and then the end.
pub open spec fn spec_parse_marker_ignore_first(s: Seq<char>, p: int) -> Option<MetadataView> {
    match parse_string_array(s, p) {
        None => None,
        Some((ignore, p4)) => match parse_sym(s, p4, ',') {
            None => None,
            Some(p5) => match parse_string(s, p5) {
                None => None,
                Some((k2, p6)) => if k2 == "version"@ {
                    match parse_sym(s, p6, ':') {
                        None => None,
                        Some(p7) => match parse_string(s, p7) {
                            None => None,
                            Some((version, p8)) => match parse_sym(s, p8, '}') {
                                None => None,
                                Some(p9) => if skip_ws(s, p9) == s.len() {
                                    Some(MetadataView { version, ignore })
                                } else {
                                    None
                                },
                            },
                        },
                    }
                } else {
                    None
                },
            },
        },
    }
}

/// What parsing a marker text yields: an object holding exactly a version
/// string and an ignore array, in either field order, with whitespace
/// allowed between tokens.
pub open spec fn spec_parse_marker(s: Seq<char>) -> Option<MetadataView> {
    match parse_sym(s, 0, '{') {
        None => None,
        Some(p1) => match parse_string(s, p1) {
            None => None,
            Some((k1, p2)) => match parse_sym(s, p2, ':') {
                None => None,
                Some(p3) => if k1 == "version"@ {
                    spec_parse_marker_version_first(s, p3)
                } else if k1 == "ignore"@ {
                    spec_parse_marker_ignore_first(s, p3)
                } else {
                    None
                },
            },
        },
    }
}

/// What parsing a marker byte block yields.
pub open spec fn spec_parse_marker_bytes(b: Seq<u8>) -> Option<MetadataView> {
    if valid_utf8(b) {
        spec_parse_marker(decode_utf8(b))
    } else {
        None
    }
}

impl Metadata {
    /// Reads a marker back from its JSON text.
    pub fn from_chars(v: &Vec<char>) -> (r: Option<Metadata>)
        ensures
            match r {
                Some(m) => spec_parse_marker(v@) == Some(m@),
                None => spec_parse_marker(v@) is None,
            },
    {
        let key_version: String = "version".to_owned();
        let key_ignore: String = "ignore".to_owned();
        let p1 = match parse_sym_x(v, 0, '{') {
            None => {
                return None;
            },
            Some(p) => p,
        };
        let (k1, p2) = match parse_string_x(v, p1) {
            None => {
                return None;
            },
            Some(p) => p,
        };
        let p3 = match parse_sym_x(v, p2, ':') {
            None => {
                return None;
            },
            Some(p) => p,
        };
        let k1s = chars_to_string(&k1);
        if k1s == key_version {
            let (version, p4) = match parse_string_x(v, p3) {
                None => {
                    return None;
                },
                Some(p) => p,
            };
            let p5 = match parse_sym_x(v, p4, ',') {
                None => {
                    return None;
                },
                Some(p) => p,
            };
            let (k2, p6) = match parse_string_x(v, p5) {
                None => {
                    return None;
                },
                Some(p) => p,
            };
            let k2s = chars_to_string(&k2);
            if !(k2s == key_ignore) {
                return None;
            }
            let p7 = match parse_sym_x(v, p6, ':') {
                None => {
                    return None;
                },
                Some(p) => p,
            };
            let (ignore, p8) = match parse_string_array_x(v, p7) {
                None => {
                    return None;
                },
                Some(p) => p,
            };
            let p9 = match parse_sym_x(v, p8, '}') {
                None => {
                    return None;
                },
                Some(p) => p,
            };
            let pend = skip_ws_x(v, p9);
            if !(pend == v.len()) {
                return None;
            }
            Some(Metadata { version: chars_to_string(&version), ignore })
        } else if k1s == key_ignore {
            let (ignore, p4) = match parse_string_array_x(v, p3) {
                None => {
                    return None;
                },
                Some(p) => p,
            };
            let p5 = match parse_sym_x(v, p4, ',') {
                None => {
                    return None;
                },
                Some(p) => p,
            };
            let (k2, p6) = match parse_string_x(v, p5) {
                None => {
                    return None;
                },
                Some(p) => p,
            };
            let k2s = chars_to_string(&k2);
            if !(k2s == key_version) {
                return None;
            }
            let p7 = match parse_sym_x(v, p6, ':') {
                None => {
                    return None;
                },
                Some(p) => p,
            };
            let (version, p8) = match parse_string_x(v, p7) {
                None => {
                    return None;
                },
                Some(p) => p,
            };
            let p9 = match parse_sym_x(v, p8, '}') {
                None => {
                    return None;
                },
                Some(p) => p,
            };
            let pend = skip_ws_x(v, p9);
            if !(pend == v.len()) {
                return None;
            }
            Some(Metadata { version: chars_to_string(&version), ignore })
        } else {
            return None;
        }
    }

    /// Reads a marker back from a UTF-8 byte block, as `eto.json` stores it.
    pub fn from_bytes(b: Vec<u8>) -> (r: Option<Metadata>)
        ensures
            match r {
                Some(m) => spec_parse_marker_bytes(b@) == Some(m@),
                None => spec_parse_marker_bytes(b@) is None,
            },
    {
        let ghost bytes = b@;
        match bytes_to_string(b) {
            None => None,
            Some(s) => {
                let cs = string_to_chars(s.as_str());
                proof {
                    assert(cs@ == decode_utf8(bytes));
                }
                Metadata::from_chars(&cs)
            },
        }
    }
}

} // verus!
