//! The manifest: the JSON header of a package container.
//!
//! A manifest carries the codec's own format version and the diff the
//! package was built from. On disk it is one UTF-8 JSON object of a fixed
//! shape; the serialiser below writes that shape without any whitespace, and
//! the parser reads it back, tolerating whitespace between tokens. Parsing
//! a serialised manifest returns the original value, proved at the end.

use vstd::prelude::*;
use vstd::string::StrSliceExecFns;
use vstd::utf8::{decode_utf8, valid_utf8};

use crate::diff::{Diff, DiffView};
use crate::json::{
    emit_json_array, emit_json_string, json_string, json_string_array, lemma_parse_array_of,
    lemma_parse_key_of, lemma_parse_string_of, lemma_parse_sym_of, parse_key, parse_key_x,
    parse_string, parse_string_array, parse_string_array_x, parse_string_x, parse_sym,
    parse_sym_x, skip_ws, skip_ws_x,
};
use crate::seqs::lemma_concat_extract;
use crate::text::{bytes_to_string, chars_to_string, string_to_chars};

verus! {

/// The mathematical reading of a manifest.
pub struct ManifestView {
    pub version: Seq<char>,
    pub diff: DiffView,
}

/// The header stored inside a package container.
pub struct Manifest {
    /// The version of the container format itself.
    pub version: String,
    /// The diff the package carries content for.
    pub diff: Diff,
}

impl View for Manifest {
    type V = ManifestView;

    open spec fn view(&self) -> ManifestView {
        ManifestView { version: self.version@, diff: self.diff@ }
    }
}

/// The text opening the manifest object, up to the version value.
pub open spec fn lit_version() -> Seq<char> {
    "{\"version\":"@
}

/// The text between the version value and the old-version value.
pub open spec fn lit_diff() -> Seq<char> {
    ",\"diff\":{\"old_version\":"@
}

/// The text introducing the new-version value.
pub open spec fn lit_new_version() -> Seq<char> {
    ",\"new_version\":"@
}

/// The text introducing the added-paths array.
pub open spec fn lit_add() -> Seq<char> {
    ",\"add\":"@
}

/// The text introducing the changed-paths array.
pub open spec fn lit_change() -> Seq<char> {
    ",\"change\":"@
}

/// The text introducing the deleted-paths array.
pub open spec fn lit_delete() -> Seq<char> {
    ",\"delete\":"@
}

/// The text closing the diff object and the manifest object.
pub open spec fn lit_close() -> Seq<char> {
    "}}"@
}

/// The quoted key of the format-version field.
pub open spec fn key_version() -> Seq<char> {
    "\"version\""@
}

/// The quoted key of the diff field.
pub open spec fn key_diff() -> Seq<char> {
    "\"diff\""@
}

/// The quoted key of the old-version field.
pub open spec fn key_old_version() -> Seq<char> {
    "\"old_version\""@
}

/// The quoted key of the new-version field.
pub open spec fn key_new_version() -> Seq<char> {
    "\"new_version\""@
}

/// The quoted key of the added-paths field.
pub open spec fn key_add() -> Seq<char> {
    "\"add\""@
}

/// The quoted key of the changed-paths field.
pub open spec fn key_change() -> Seq<char> {
    "\"change\""@
}

/// The quoted key of the deleted-paths field.
pub open spec fn key_delete() -> Seq<char> {
    "\"delete\""@
}

/// The canonical JSON text of a manifest, without any whitespace.
pub open spec fn manifest_json(m: ManifestView) -> Seq<char> {
    lit_version() + json_string(m.version) + lit_diff() + json_string(m.diff.old_version)
        + lit_new_version() + json_string(m.diff.new_version) + lit_add() + json_string_array(
        m.diff.add,
    ) + lit_change() + json_string_array(m.diff.change) + lit_delete() + json_string_array(
        m.diff.delete,
    ) + lit_close()
}

/// What parsing a manifest text yields: the fields of the fixed shape in
/// their fixed order, with whitespace allowed between tokens and nothing
/// but whitespace after the closing brace.
pub open spec fn spec_parse_manifest(s: Seq<char>) -> Option<ManifestView> {
    match parse_sym(s, 0, '{') {
        None => None,
        Some(p1) => match parse_key(s, p1, key_version()) {
            None => None,
            Some(p2) => match parse_string(s, p2) {
                None => None,
                Some((version, p3)) => match parse_sym(s, p3, ',') {
                    None => None,
                    Some(p4) => match parse_key(s, p4, key_diff()) {
                        None => None,
                        Some(p5) => match parse_sym(s, p5, '{') {
                            None => None,
                            Some(p6) => match parse_key(s, p6, key_old_version()) {
                                None => None,
                                Some(p7) => match parse_string(s, p7) {
                                    None => None,
                                    Some((old_version, p8)) => match parse_sym(s, p8, ',') {
                                        None => None,
                                        Some(p9) => match parse_key(s, p9, key_new_version()) {
                                            None => None,
                                            Some(p10) => match parse_string(s, p10) {
                                                None => None,
                                                Some((new_version, p11)) => spec_parse_manifest_tail(
                                                    s,
                                                    p11,
                                                    version,
                                                    old_version,
                                                    new_version,
                                                ),
                                            },
                                        },
                                    },
                                },
                            },
                        },
                    },
                },
            },
        },
    }
}

/// The tail of a manifest text after the new-version value: the three path
/// arrays, the two closing braces, and the end of the text.
pub open spec fn spec_parse_manifest_tail(
    s: Seq<char>,
    i: int,
    version: Seq<char>,
    old_version: Seq<char>,
    new_version: Seq<char>,
) -> Option<ManifestView> {
    match parse_sym(s, i, ',') {
        None => None,
        Some(p1) => match parse_key(s, p1, key_add()) {
            None => None,
            Some(p2) => match parse_string_array(s, p2) {
                None => None,
                Some((add, p3)) => match parse_sym(s, p3, ',') {
                    None => None,
                    Some(p4) => match parse_key(s, p4, key_change()) {
                        None => None,
                        Some(p5) => match parse_string_array(s, p5) {
                            None => None,
                            Some((change, p6)) => match parse_sym(s, p6, ',') {
                                None => None,
                                Some(p7) => match parse_key(s, p7, key_delete()) {
                                    None => None,
                                    Some(p8) => match parse_string_array(s, p8) {
                                        None => None,
                                        Some((delete, p9)) => match parse_sym(s, p9, '}') {
                                            None => None,
                                            Some(p10) => match parse_sym(s, p10, '}') {
                                                None => None,
                                                Some(p11) => if skip_ws(s, p11) == s.len() {
                                                    Some(
                                                        ManifestView {
                                                            version,
                                                            diff: DiffView {
                                                                old_version,
                                                                new_version,
                                                                add,
                                                                change,
                                                                delete,
                                                            },
                                                        },
                                                    )
                                                } else {
                                                    None
                                                },
                                            },
                                        },
                                    },
                                },
                            },
                        },
                    },
                },
            },
        },
    }
}

/// The manifest text as UTF-8 bytes, as the container stores it.
pub open spec fn manifest_bytes(m: ManifestView) -> Seq<u8> {
    vstd::utf8::encode_utf8(manifest_json(m))
}

/// What parsing a manifest byte block yields.
pub open spec fn spec_parse_manifest_bytes(b: Seq<u8>) -> Option<ManifestView> {
    if valid_utf8(b) {
        spec_parse_manifest(decode_utf8(b))
    } else {
        None
    }
}

/// Appends the view of `s` to the output, one character at a time.
fn emit_text(out: &mut Vec<char>, s: &str)
    ensures
        final(out)@ == old(out)@ + s@,
{
    let mut cs = string_to_chars(s);
    out.append(&mut cs);
}

impl Manifest {
    /// Writes the manifest as its canonical JSON text.
    pub fn to_chars(&self) -> (r: Vec<char>)
        ensures
            r@ == manifest_json(self@),
    {
        let mut out: Vec<char> = Vec::new();
        emit_text(&mut out, "{\"version\":");
        emit_json_string(&mut out, self.version.as_str());
        emit_text(&mut out, ",\"diff\":{\"old_version\":");
        emit_json_string(&mut out, self.diff.old_version.as_str());
        emit_text(&mut out, ",\"new_version\":");
        emit_json_string(&mut out, self.diff.new_version.as_str());
        emit_text(&mut out, ",\"add\":");
        emit_json_array(&mut out, &self.diff.add);
        emit_text(&mut out, ",\"change\":");
        emit_json_array(&mut out, &self.diff.change);
        emit_text(&mut out, ",\"delete\":");
        emit_json_array(&mut out, &self.diff.delete);
        emit_text(&mut out, "}}");
        proof {
            assert(out@ =~= manifest_json(self@));
        }
        out
    }

    /// Writes the manifest as the UTF-8 bytes the container stores.
    pub fn to_bytes(&self) -> (r: Vec<u8>)
        ensures
            r@ == manifest_bytes(self@),
    {
        let cs = self.to_chars();
        let s = chars_to_string(&cs);
        s.as_str().as_bytes_vec()
    }

    /// Reads a manifest back from its JSON text.
    pub fn from_chars(v: &Vec<char>) -> (r: Option<Manifest>)
        ensures
            match r {
                Some(m) => spec_parse_manifest(v@) == Some(m@),
                None => spec_parse_manifest(v@) is None,
            },
    {
        let kver = string_to_chars("\"version\"");
        let kdiff = string_to_chars("\"diff\"");
        let kold = string_to_chars("\"old_version\"");
        let knew = string_to_chars("\"new_version\"");
        let kadd = string_to_chars("\"add\"");
        let kchange = string_to_chars("\"change\"");
        let kdelete = string_to_chars("\"delete\"");
        proof {
            reveal_strlit("\"version\"");
            reveal_strlit("\"diff\"");
            reveal_strlit("\"old_version\"");
            reveal_strlit("\"new_version\"");
            reveal_strlit("\"add\"");
            reveal_strlit("\"change\"");
            reveal_strlit("\"delete\"");
        }
        let p1 = match parse_sym_x(v, 0, '{') {
            None => {
                return None;
            },
            Some(p) => p,
        };
        let p2 = match parse_key_x(v, p1, &kver) {
            None => {
                return None;
            },
            Some(p) => p,
        };
        let (version, p3) = match parse_string_x(v, p2) {
            None => {
                return None;
            },
            Some(p) => p,
        };
        let p4 = match parse_sym_x(v, p3, ',') {
            None => {
                return None;
            },
            Some(p) => p,
        };
        let p5 = match parse_key_x(v, p4, &kdiff) {
            None => {
                return None;
            },
            Some(p) => p,
        };
        let p6 = match parse_sym_x(v, p5, '{') {
            None => {
                return None;
            },
            Some(p) => p,
        };
        let p7 = match parse_key_x(v, p6, &kold) {
            None => {
                return None;
            },
            Some(p) => p,
        };
        let (old_version, p8) = match parse_string_x(v, p7) {
            None => {
                return None;
            },
            Some(p) => p,
        };
        let p9 = match parse_sym_x(v, p8, ',') {
            None => {
                return None;
            },
            Some(p) => p,
        };
        let p10 = match parse_key_x(v, p9, &knew) {
            None => {
                return None;
            },
            Some(p) => p,
        };
        let (new_version, p11) = match parse_string_x(v, p10) {
            None => {
                return None;
            },
            Some(p) => p,
        };
        let p12 = match parse_sym_x(v, p11, ',') {
            None => {
                return None;
            },
            Some(p) => p,
        };
        let p13 = match parse_key_x(v, p12, &kadd) {
            None => {
                return None;
            },
            Some(p) => p,
        };
        let (add, p14) = match parse_string_array_x(v, p13) {
            None => {
                return None;
            },
            Some(p) => p,
        };
        let p15 = match parse_sym_x(v, p14, ',') {
            None => {
                return None;
            },
            Some(p) => p,
        };
        let p16 = match parse_key_x(v, p15, &kchange) {
            None => {
                return None;
            },
            Some(p) => p,
        };
        let (change, p17) = match parse_string_array_x(v, p16) {
            None => {
                return None;
            },
            Some(p) => p,
        };
        let p18 = match parse_sym_x(v, p17, ',') {
            None => {
                return None;
            },
            Some(p) => p,
        };
        let p19 = match parse_key_x(v, p18, &kdelete) {
            None => {
                return None;
            },
            Some(p) => p,
        };
        let (delete, p20) = match parse_string_array_x(v, p19) {
            None => {
                return None;
            },
            Some(p) => p,
        };
        let p21 = match parse_sym_x(v, p20, '}') {
            None => {
                return None;
            },
            Some(p) => p,
        };
        let p22 = match parse_sym_x(v, p21, '}') {
            None => {
                return None;
            },
            Some(p) => p,
        };
        let pend = skip_ws_x(v, p22);
        if !(pend == v.len()) {
            return None;
        }
        Some(
            Manifest {
                version: chars_to_string(&version),
                diff: Diff {
                    old_version: chars_to_string(&old_version),
                    new_version: chars_to_string(&new_version),
                    add,
                    change,
                    delete,
                },
            },
        )
    }

    /// Reads a manifest back from a UTF-8 byte block.
    pub fn from_bytes(b: Vec<u8>) -> (r: Option<Manifest>)
        ensures
            match r {
                Some(m) => spec_parse_manifest_bytes(b@) == Some(m@),
                None => spec_parse_manifest_bytes(b@) is None,
            },
    {
        let ghost bytes = b@;
        match bytes_to_string(b) {
            None => None,
            Some(s) => {
                let cs = string_to_chars(s.as_str());
                proof {
                    assert(cs@ == decode_utf8(bytes));
                }
                Manifest::from_chars(&cs)
            },
        }
    }
}

/// Where each piece of the canonical text stands: the seven fixed texts
/// and the six serialised values, at their cumulative offsets.
pub open spec fn manifest_layout(m: ManifestView, s: Seq<char>) -> bool {
    let q1 = lit_version().len() as int;
    let q2 = q1 + json_string(m.version).len();
    let q3 = q2 + lit_diff().len();
    let q4 = q3 + json_string(m.diff.old_version).len();
    let q5 = q4 + lit_new_version().len();
    let q6 = q5 + json_string(m.diff.new_version).len();
    let q7 = q6 + lit_add().len();
    let q8 = q7 + json_string_array(m.diff.add).len();
    let q9 = q8 + lit_change().len();
    let q10 = q9 + json_string_array(m.diff.change).len();
    let q11 = q10 + lit_delete().len();
    let q12 = q11 + json_string_array(m.diff.delete).len();
    let q13 = q12 + lit_close().len();
    &&& s.len() == q13
    &&& s.subrange(0, q1) == lit_version()
    &&& s.subrange(q1, q2) == json_string(m.version)
    &&& s.subrange(q2, q3) == lit_diff()
    &&& s.subrange(q3, q4) == json_string(m.diff.old_version)
    &&& s.subrange(q4, q5) == lit_new_version()
    &&& s.subrange(q5, q6) == json_string(m.diff.new_version)
    &&& s.subrange(q6, q7) == lit_add()
    &&& s.subrange(q7, q8) == json_string_array(m.diff.add)
    &&& s.subrange(q8, q9) == lit_change()
    &&& s.subrange(q9, q10) == json_string_array(m.diff.change)
    &&& s.subrange(q10, q11) == lit_delete()
    &&& s.subrange(q11, q12) == json_string_array(m.diff.delete)
    &&& s.subrange(q12, q13) == lit_close()
}

/// The canonical text has its pieces at their cumulative offsets.
proof fn lemma_manifest_layout(m: ManifestView)
    ensures
        manifest_layout(m, manifest_json(m)),
{
    let s = manifest_json(m);
    let c1 = lit_version();
    let c2 = json_string(m.version);
    let c3 = lit_diff();
    let c4 = json_string(m.diff.old_version);
    let c5 = lit_new_version();
    let c6 = json_string(m.diff.new_version);
    let c7 = lit_add();
    let c8 = json_string_array(m.diff.add);
    let c9 = lit_change();
    let c10 = json_string_array(m.diff.change);
    let c11 = lit_delete();
    let c12 = json_string_array(m.diff.delete);
    let c13 = lit_close();
    let u1 = c1;
    let u2 = u1 + c2;
    let u3 = u2 + c3;
    let u4 = u3 + c4;
    let u5 = u4 + c5;
    let u6 = u5 + c6;
    let u7 = u6 + c7;
    let u8 = u7 + c8;
    let u9 = u8 + c9;
    let u10 = u9 + c10;
    let u11 = u10 + c11;
    let u12 = u11 + c12;
    let u13 = u12 + c13;
    assert(s == u13);
    lemma_concat_extract(u1, c2);
    lemma_concat_extract(u2, c3);
    lemma_concat_extract(u3, c4);
    lemma_concat_extract(u4, c5);
    lemma_concat_extract(u5, c6);
    lemma_concat_extract(u6, c7);
    lemma_concat_extract(u7, c8);
    lemma_concat_extract(u8, c9);
    lemma_concat_extract(u9, c10);
    lemma_concat_extract(u10, c11);
    lemma_concat_extract(u11, c12);
    lemma_concat_extract(u12, c13);
    assert(u1.subrange(0, c1.len() as int) =~= c1);
}

/// The tail of the canonical text — the three arrays, the braces, and the
/// end — reads back as the manifest's lists.
#[verifier::rlimit(100)]
proof fn lemma_manifest_round_tail(m: ManifestView, s: Seq<char>, q6: int)
    requires
        manifest_layout(m, s),
        q6 == lit_version().len() + json_string(m.version).len() + lit_diff().len()
            + json_string(m.diff.old_version).len() + lit_new_version().len() + json_string(
            m.diff.new_version,
        ).len(),
    ensures
        spec_parse_manifest_tail(s, q6, m.version, m.diff.old_version, m.diff.new_version)
            == Some(m),
{
    let c7 = lit_add();
    let c8 = json_string_array(m.diff.add);
    let c9 = lit_change();
    let c10 = json_string_array(m.diff.change);
    let c11 = lit_delete();
    let c12 = json_string_array(m.diff.delete);
    let c13 = lit_close();
    let q7 = q6 + c7.len();
    let q8 = q7 + c8.len();
    let q9 = q8 + c9.len();
    let q10 = q9 + c10.len();
    let q11 = q10 + c11.len();
    let q12 = q11 + c12.len();
    let q13 = q12 + c13.len();
    reveal_strlit(",\"add\":");
    reveal_strlit(",\"change\":");
    reveal_strlit(",\"delete\":");
    reveal_strlit("}}");
    reveal_strlit("\"add\"");
    reveal_strlit("\"change\"");
    reveal_strlit("\"delete\"");
    assert(s.subrange(q6, q7) == c7);
    assert(s.subrange(q7, q8) == c8);
    assert(s.subrange(q8, q9) == c9);
    assert(s.subrange(q9, q10) == c10);
    assert(s.subrange(q10, q11) == c11);
    assert(s.subrange(q11, q12) == c12);
    assert(s.subrange(q12, q13) == c13);
    assert(s.len() == q13);
    // The add text: comma, key, colon.
    assert(s[q6] == s.subrange(q6, q7)[0]);
    assert(s[q6] == c7[0]);
    assert(s.subrange(q6 + 1, q6 + 6) =~= key_add()) by {
        assert forall|t: int| 0 <= t < 5 implies s.subrange(q6 + 1, q6 + 6)[t] == key_add()[t] by {
            assert(s.subrange(q6, q7)[1 + t] == c7[1 + t]);
        }
    }
    assert(s[q6 + 6] == s.subrange(q6, q7)[6]);
    assert(s[q6 + 6] == c7[6]);
    lemma_parse_sym_of(s, q6, ',');
    lemma_parse_key_of(s, q6 + 1, key_add());
    lemma_parse_array_of(m.diff.add, s, q7);
    // The change text: comma, key, colon.
    assert(s[q8] == s.subrange(q8, q9)[0]);
    assert(s[q8] == c9[0]);
    assert(s.subrange(q8 + 1, q8 + 9) =~= key_change()) by {
        assert forall|t: int| 0 <= t < 8 implies s.subrange(q8 + 1, q8 + 9)[t]
            == key_change()[t] by {
            assert(s.subrange(q8, q9)[1 + t] == c9[1 + t]);
        }
    }
    assert(s[q8 + 9] == s.subrange(q8, q9)[9]);
    assert(s[q8 + 9] == c9[9]);
    lemma_parse_sym_of(s, q8, ',');
    lemma_parse_key_of(s, q8 + 1, key_change());
    lemma_parse_array_of(m.diff.change, s, q9);
    // The delete text: comma, key, colon.
    assert(s[q10] == s.subrange(q10, q11)[0]);
    assert(s[q10] == c11[0]);
    assert(s.subrange(q10 + 1, q10 + 9) =~= key_delete()) by {
        assert forall|t: int| 0 <= t < 8 implies s.subrange(q10 + 1, q10 + 9)[t]
            == key_delete()[t] by {
            assert(s.subrange(q10, q11)[1 + t] == c11[1 + t]);
        }
    }
    assert(s[q10 + 9] == s.subrange(q10, q11)[9]);
    assert(s[q10 + 9] == c11[9]);
    lemma_parse_sym_of(s, q10, ',');
    lemma_parse_key_of(s, q10 + 1, key_delete());
    lemma_parse_array_of(m.diff.delete, s, q11);
    // The closing braces and the end of the text.
    assert(s[q12] == s.subrange(q12, q13)[0]);
    assert(s[q12] == c13[0]);
    assert(s[q12 + 1] == s.subrange(q12, q13)[1]);
    assert(s[q12 + 1] == c13[1]);
    lemma_parse_sym_of(s, q12, '}');
    lemma_parse_sym_of(s, q12 + 1, '}');
    assert(skip_ws(s, q13) == q13);
}

/// The head of the canonical text — the opening brace, the version field,
/// and the diff object's opening through its new-version field — reads
/// back as the manifest's three version strings.
#[verifier::rlimit(100)]
proof fn lemma_manifest_round_head(m: ManifestView, s: Seq<char>)
    requires
        manifest_layout(m, s),
    ensures
        parse_sym(s, 0, '{') == Some(1int),
        parse_key(s, 1, key_version()) == Some(lit_version().len() as int),
        parse_string(s, lit_version().len() as int) == Some((m.version, lit_version().len() as int + json_string(m.version).len())),
        parse_sym(s, lit_version().len() as int + json_string(m.version).len(), ',') == Some((lit_version().len() as int + json_string(m.version).len()) + 1),
        parse_key(s, (lit_version().len() as int + json_string(m.version).len()) + 1, key_diff()) == Some((lit_version().len() as int + json_string(m.version).len()) + 8),
        parse_sym(s, (lit_version().len() as int + json_string(m.version).len()) + 8, '{') == Some((lit_version().len() as int + json_string(m.version).len()) + 9),
        parse_key(s, (lit_version().len() as int + json_string(m.version).len()) + 9, key_old_version()) == Some(lit_version().len() as int + json_string(m.version).len() + lit_diff().len()),
        parse_string(s, lit_version().len() as int + json_string(m.version).len() + lit_diff().len()) == Some((m.diff.old_version, lit_version().len() as int + json_string(m.version).len() + lit_diff().len() + json_string(m.diff.old_version).len())),
        parse_sym(s, lit_version().len() as int + json_string(m.version).len() + lit_diff().len() + json_string(m.diff.old_version).len(), ',') == Some((lit_version().len() as int + json_string(m.version).len() + lit_diff().len() + json_string(m.diff.old_version).len()) + 1),
        parse_key(s, (lit_version().len() as int + json_string(m.version).len() + lit_diff().len() + json_string(m.diff.old_version).len()) + 1, key_new_version()) == Some(lit_version().len() as int + json_string(m.version).len() + lit_diff().len() + json_string(m.diff.old_version).len() + lit_new_version().len()),
        parse_string(s, lit_version().len() as int + json_string(m.version).len() + lit_diff().len() + json_string(m.diff.old_version).len() + lit_new_version().len()) == Some((m.diff.new_version, lit_version().len() as int + json_string(m.version).len() + lit_diff().len() + json_string(m.diff.old_version).len() + lit_new_version().len() + json_string(m.diff.new_version).len())),
{
    let c1 = lit_version();
    let c2 = json_string(m.version);
    let c3 = lit_diff();
    let c4 = json_string(m.diff.old_version);
    let c5 = lit_new_version();
    let c6 = json_string(m.diff.new_version);
    let q0: int = 0;
    let q1 = q0 + c1.len();
    let q2 = q1 + c2.len();
    let q3 = q2 + c3.len();
    let q4 = q3 + c4.len();
    let q5 = q4 + c5.len();
    let q6 = q5 + c6.len();
    reveal_strlit("{\"version\":");
    reveal_strlit(",\"diff\":{\"old_version\":");
    reveal_strlit(",\"new_version\":");
    reveal_strlit("\"version\"");
    reveal_strlit("\"diff\"");
    reveal_strlit("\"old_version\"");
    reveal_strlit("\"new_version\"");
    assert(s.subrange(q0, q1) == c1);
    assert(s.subrange(q1, q2) == c2);
    assert(s.subrange(q2, q3) == c3);
    assert(s.subrange(q3, q4) == c4);
    assert(s.subrange(q4, q5) == c5);
    assert(s.subrange(q5, q6) == c6);
    // The opening text: `{`, the version key, and its colon.
    assert(s[q0] == s.subrange(q0, q1)[0]);
    assert(s[q0] == '{');
    assert(s.subrange(q0 + 1, q0 + 10) =~= key_version()) by {
        assert forall|t: int| 0 <= t < 9 implies s.subrange(q0 + 1, q0 + 10)[t]
            == key_version()[t] by {
            assert(s.subrange(q0, q1)[1 + t] == c1[1 + t]);
        }
    }
    assert(s[q0 + 10] == s.subrange(q0, q1)[10]);
    assert(s[q0 + 10] == c1[10]);
    lemma_parse_sym_of(s, q0, '{');
    lemma_parse_key_of(s, q0 + 1, key_version());
    lemma_parse_string_of(m.version, s, q1);
    // The diff text: comma, diff key, colon, `{`, old-version key, colon.
    assert(s[q2] == s.subrange(q2, q3)[0]);
    assert(s[q2] == c3[0]);
    assert(s.subrange(q2 + 1, q2 + 7) =~= key_diff()) by {
        assert forall|t: int| 0 <= t < 6 implies s.subrange(q2 + 1, q2 + 7)[t] == key_diff()[t] by {
            assert(s.subrange(q2, q3)[1 + t] == c3[1 + t]);
        }
    }
    assert(s[q2 + 7] == s.subrange(q2, q3)[7]);
    assert(s[q2 + 7] == c3[7]);
    assert(s[q2 + 8] == s.subrange(q2, q3)[8]);
    assert(s[q2 + 8] == c3[8]);
    assert(s.subrange(q2 + 9, q2 + 22) =~= key_old_version()) by {
        assert forall|t: int| 0 <= t < 13 implies s.subrange(q2 + 9, q2 + 22)[t]
            == key_old_version()[t] by {
            assert(s.subrange(q2, q3)[9 + t] == c3[9 + t]);
        }
    }
    assert(s[q2 + 22] == s.subrange(q2, q3)[22]);
    assert(s[q2 + 22] == c3[22]);
    lemma_parse_sym_of(s, q2, ',');
    lemma_parse_key_of(s, q2 + 1, key_diff());
    lemma_parse_sym_of(s, q2 + 8, '{');
    lemma_parse_key_of(s, q2 + 9, key_old_version());
    lemma_parse_string_of(m.diff.old_version, s, q3);
    // The new-version text: comma, key, colon.
    assert(s[q4] == s.subrange(q4, q5)[0]);
    assert(s[q4] == c5[0]);
    assert(s.subrange(q4 + 1, q4 + 14) =~= key_new_version()) by {
        assert forall|t: int| 0 <= t < 13 implies s.subrange(q4 + 1, q4 + 14)[t]
            == key_new_version()[t] by {
            assert(s.subrange(q4, q5)[1 + t] == c5[1 + t]);
        }
    }
    assert(s[q4 + 14] == s.subrange(q4, q5)[14]);
    assert(s[q4 + 14] == c5[14]);
    lemma_parse_sym_of(s, q4, ',');
    lemma_parse_key_of(s, q4 + 1, key_new_version());
    lemma_parse_string_of(m.diff.new_version, s, q5);
}

/// Parsing the canonical text of a manifest yields that manifest back.
#[verifier::rlimit(100)]
pub proof fn lemma_manifest_round(m: ManifestView)
    ensures
        spec_parse_manifest(manifest_json(m)) == Some(m),
{
    let s = manifest_json(m);
    let q6 = lit_version().len() + json_string(m.version).len() + lit_diff().len()
        + json_string(m.diff.old_version).len() + lit_new_version().len() + json_string(
        m.diff.new_version,
    ).len();
    lemma_manifest_layout(m);
    lemma_manifest_round_head(m, s);
    lemma_manifest_round_tail(m, s, q6 as int);
}

/// Parsing the serialised bytes of a manifest yields that manifest back.
pub proof fn lemma_manifest_bytes_round(m: ManifestView)
    ensures
        spec_parse_manifest_bytes(manifest_bytes(m)) == Some(m),
{
    vstd::utf8::encode_utf8_valid_utf8(manifest_json(m));
    vstd::utf8::encode_utf8_decode_utf8(manifest_json(m));
    lemma_manifest_round(m);
}

} // verus!
