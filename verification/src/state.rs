//! Content-addressed directory snapshots.
//!
//! A snapshot records, for every tracked file of a directory, the hex SHA-256
//! digest of its content, keyed by the separator-normalised path relative to
//! the scanned root. The walk itself stays with the caller: it hands in every
//! regular file it found as a `(relative path, content)` pair, and the
//! snapshot is computed here from those plain values.

use vstd::prelude::*;

use crate::error::Error;
use crate::globs::{glob_match, glob_path_matches, glob_pattern_ok, glob_pattern_valid};
use crate::hashing::{hash_bytes, sha256_hex_of};
use crate::metadata::Metadata;
use crate::pathmap::{
    assoc_find, assoc_get, assoc_has, lemma_assoc_get_push, lemma_assoc_none, map_of,
};

verus! {

/// A relative path paired with the bytes of the file it names.
pub type FileEntry = (String, Vec<u8>);

/// The marker file's name; it is always tracked, whatever the ignore rules say.
pub open spec fn marker_name() -> Seq<char> {
    "eto.json"@
}

/// A relative path in the snapshot's normal form: non-empty, separated by
/// single forward slashes, with no empty or `.` components, no leading or
/// trailing separator, and no backslash. The scan's keys are such paths
/// (the walk hands them over already normalised), and the archive engine
/// stores exactly such paths verbatim.
pub open spec fn path_normal(p: Seq<char>) -> bool {
    &&& p.len() > 0
    &&& p[0] != '/'
    &&& p[p.len() - 1] != '/'
    &&& forall|i: int| 0 <= i < p.len() ==> p[i] != '\\'
    &&& forall|i: int| 0 < i < p.len() ==> !(p[i] == '/' && #[trigger] p[i - 1] == '/')
    &&& forall|i: int|
        0 <= i < p.len() ==> !((i == 0 || p[i - 1] == '/') && #[trigger] p[i] == '.' && (i + 1
            == p.len() || p[i + 1] == '/'))
}

/// Every path of a file table is in normal form.
pub open spec fn table_paths_normal(files: Seq<(Seq<char>, Seq<char>)>) -> bool {
    forall|j: int| 0 <= j < files.len() ==> path_normal((#[trigger] files[j]).0)
}

/// Every pattern of the list compiles.
pub open spec fn patterns_ok(ignore: Seq<Seq<char>>) -> bool {
    forall|i: int| 0 <= i < ignore.len() ==> glob_pattern_ok(#[trigger] ignore[i])
}

/// Some pattern of the list matches `path`.
pub open spec fn path_ignored(ignore: Seq<Seq<char>>, path: Seq<char>) -> bool {
    exists|i: int| 0 <= i < ignore.len() && glob_path_matches(#[trigger] ignore[i], path)
}

/// Whether a scan with the given ignore rules records `path`: every path
/// that no pattern matches, and the marker file unconditionally.
pub open spec fn path_tracked(ignore: Seq<Seq<char>>, path: Seq<char>) -> bool {
    path == marker_name() || !path_ignored(ignore, path)
}

/// The directory contents a list of file entries describes; on a duplicated
/// path the earlier entry wins, matching the scan below.
pub open spec fn contents_map(entries: Seq<(Seq<char>, Seq<u8>)>) -> Map<Seq<char>, Seq<u8>> {
    map_of(entries)
}

/// The file-to-digest mapping a scan of the given contents yields.
pub open spec fn spec_scan(ignore: Seq<Seq<char>>, contents: Map<Seq<char>, Seq<u8>>) -> Map<
    Seq<char>,
    Seq<char>,
> {
    Map::new(
        |p: Seq<char>| contents.contains_key(p) && path_tracked(ignore, p),
        |p: Seq<char>| sha256_hex_of(contents[p]),
    )
}

/// A snapshot of a directory: its version and the digest of every tracked file.
pub struct State {
    /// The version the directory's marker file declared.
    pub version: String,
    /// Pairs of relative path and hex digest, in scan-encounter order.
    pub files: Vec<(String, String)>,
}

impl State {
    /// The file table as a mapping from path to digest.
    pub open spec fn files_map(&self) -> Map<Seq<char>, Seq<char>> {
        map_of(self.files.deep_view())
    }

    /// No path occurs twice in the file table.
    pub open spec fn wf(&self) -> bool {
        forall|i: int, j: int|
            0 <= i < j < self.files@.len() ==> (#[trigger] self.files@[i]).0@ != (
            #[trigger] self.files@[j]).0@
    }

    /// Builds the snapshot of a directory from its marker metadata and every
    /// file the caller's walk found under the root, as relative path and
    /// content pairs. Fails exactly when some ignore entry is not a valid
    /// glob pattern; otherwise the snapshot maps every tracked path to the
    /// digest of its content.
    #[verifier::loop_isolation(false)]
    pub fn from_entries(metadata: &Metadata, entries: &Vec<FileEntry>) -> (r: Result<State, Error>)
        ensures
            match r {
                Ok(s) => {
                    &&& patterns_ok(metadata@.ignore)
                    &&& s.wf()
                    &&& s.version@ == metadata@.version
                    &&& s.files_map() == spec_scan(
                        metadata@.ignore,
                        contents_map(entries.deep_view()),
                    )
                },
                Err(e) => {
                    &&& !patterns_ok(metadata@.ignore)
                    &&& e matches Error::BadIgnorePattern { pattern } && !glob_pattern_ok(
                        pattern@,
                    ) && metadata@.ignore.contains(pattern@)
                },
            },
    {
        let ghost ig = metadata@.ignore;
        // Reject the scan if any ignore entry fails to compile.
        let mut i: usize = 0;
        while i < metadata.ignore.len()
            invariant
                i <= metadata.ignore@.len(),
                ig == metadata@.ignore,
                ig.len() == metadata.ignore@.len(),
                forall|j: int| 0 <= j < ig.len() ==> ig[j] == (#[trigger] metadata.ignore@[j])@,
                forall|j: int| 0 <= j < i ==> glob_pattern_ok(#[trigger] ig[j]),
            decreases metadata.ignore@.len() - i,
        {
            if !glob_pattern_valid(&metadata.ignore[i]) {
                return Err(Error::BadIgnorePattern { pattern: metadata.ignore[i].clone() });
            }
            i = i + 1;
        }
        let marker: String = "eto.json".to_owned();
        let ghost dv = entries.deep_view();
        let mut files: Vec<(String, String)> = Vec::new();
        let mut k: usize = 0;
        while k < entries.len()
            invariant
                k <= entries@.len(),
                ig == metadata@.ignore,
                dv == entries.deep_view(),
                dv.len() == entries@.len(),
                forall|j: int|
                    0 <= j < dv.len() ==> #[trigger] dv[j] == (entries@[j].0@, entries@[j].1@),
                marker@ == marker_name(),
                patterns_ok(ig),
                forall|a: int, b: int|
                    0 <= a < b < files@.len() ==> (#[trigger] files@[a]).0@ != (
                    #[trigger] files@[b]).0@,
                forall|j: int|
                    0 <= j < files@.len() ==> #[trigger] files.deep_view()[j] == (
                    files@[j].0@,
                    files@[j].1@,
                ),
                map_of(files.deep_view()) == spec_scan(ig, contents_map(dv.take(k as int))),
            decreases entries@.len() - k,
        {
            let ghost pre = files.deep_view();
            let ghost e = dv[k as int];
            let path: &String = &entries[k].0;
            let kept: bool = if *path == marker {
                true
            } else {
                !path_is_ignored(&metadata.ignore, path)
            };
            proof {
                assert(kept == path_tracked(ig, path@));
                assert(dv.take(k + 1) =~= dv.take(k as int).push(e));
            }
            if kept {
                if assoc_find(&files, path).is_none() {
                    let digest = hash_bytes(&entries[k].1);
                    proof {
                        lemma_assoc_none(pre, path@);
                        lemma_scan_step_insert(ig, dv.take(k as int), e, pre, digest@);
                    }
                    files.push((path.clone(), digest));
                    proof {
                        assert(files.deep_view() =~= pre.push((path@, digest@)));
                        assert forall|a: int| 0 <= a < files@.len() - 1 implies (
                        #[trigger] files@[a]).0@ != path@ by {
                            assert(pre[a] == (files@[a].0@, files@[a].1@));
                            assert(pre[a].0 != path@);
                        }
                    }
                } else {
                    proof {
                        lemma_scan_step_keep(ig, dv.take(k as int), e, pre);
                    }
                }
            } else {
                proof {
                    lemma_scan_step_keep(ig, dv.take(k as int), e, pre);
                }
            }
            k = k + 1;
        }
        proof {
            assert(dv.take(k as int) =~= dv);
        }
        Ok(State { version: metadata.version.clone(), files })
    }
}

/// Recording a fresh tracked path extends the scan mapping at exactly
/// that path.
proof fn lemma_scan_step_insert(
    ig: Seq<Seq<char>>,
    cpre: Seq<(Seq<char>, Seq<u8>)>,
    e: (Seq<char>, Seq<u8>),
    fpre: Seq<(Seq<char>, Seq<char>)>,
    d: Seq<char>,
)
    requires
        map_of(fpre) == spec_scan(ig, map_of(cpre)),
        path_tracked(ig, e.0),
        !assoc_has(fpre, e.0),
        d == sha256_hex_of(e.1),
    ensures
        map_of(fpre.push((e.0, d))) == spec_scan(ig, map_of(cpre.push(e))),
{
    assert(!map_of(fpre).contains_key(e.0));
    assert(!spec_scan(ig, map_of(cpre)).contains_key(e.0));
    assert(!assoc_has(cpre, e.0));
    assert forall|q: Seq<char>|
        #![trigger map_of(fpre.push((e.0, d))).contains_key(q)]
        #![trigger spec_scan(ig, map_of(cpre.push(e))).contains_key(q)]
        map_of(fpre.push((e.0, d))).contains_key(q) == spec_scan(
            ig,
            map_of(cpre.push(e)),
        ).contains_key(q) && (map_of(fpre.push((e.0, d))).contains_key(q) ==> map_of(
            fpre.push((e.0, d)),
        )[q] == spec_scan(ig, map_of(cpre.push(e)))[q]) by {
        lemma_assoc_get_push(fpre, (e.0, d), q);
        lemma_assoc_get_push(cpre, e, q);
        assert(map_of(fpre).contains_key(q) == spec_scan(ig, map_of(cpre)).contains_key(q));
        if map_of(fpre).contains_key(q) {
            assert(map_of(fpre)[q] == spec_scan(ig, map_of(cpre))[q]);
        }
    }
    assert(map_of(fpre.push((e.0, d))) =~= spec_scan(ig, map_of(cpre.push(e))));
}

/// Passing over an entry that is untracked, or whose path was already
/// recorded, leaves the scan mapping as it was.
proof fn lemma_scan_step_keep(
    ig: Seq<Seq<char>>,
    cpre: Seq<(Seq<char>, Seq<u8>)>,
    e: (Seq<char>, Seq<u8>),
    fpre: Seq<(Seq<char>, Seq<char>)>,
)
    requires
        map_of(fpre) == spec_scan(ig, map_of(cpre)),
        !path_tracked(ig, e.0) || assoc_has(fpre, e.0),
    ensures
        map_of(fpre) == spec_scan(ig, map_of(cpre.push(e))),
{
    assert forall|q: Seq<char>|
        #![trigger map_of(fpre).contains_key(q)]
        #![trigger spec_scan(ig, map_of(cpre.push(e))).contains_key(q)]
        map_of(fpre).contains_key(q) == spec_scan(ig, map_of(cpre.push(e))).contains_key(q) && (
        map_of(fpre).contains_key(q) ==> map_of(fpre)[q] == spec_scan(
            ig,
            map_of(cpre.push(e)),
        )[q]) by {
        lemma_assoc_get_push(cpre, e, q);
        assert(map_of(fpre).contains_key(q) == spec_scan(ig, map_of(cpre)).contains_key(q));
        if map_of(fpre).contains_key(q) {
            assert(map_of(fpre)[q] == spec_scan(ig, map_of(cpre))[q]);
        }
        if q == e.0 && path_tracked(ig, e.0) {
            assert(map_of(fpre).contains_key(e.0));
            assert(assoc_has(cpre, e.0));
        }
    }
    assert(map_of(fpre) =~= spec_scan(ig, map_of(cpre.push(e))));
}

/// Whether any of the (all valid) patterns matches `path`.
fn path_is_ignored(ignore: &Vec<String>, path: &String) -> (r: bool)
    requires
        patterns_ok(ignore.deep_view()),
    ensures
        r == path_ignored(ignore.deep_view(), path@),
{
    let ghost ig = ignore.deep_view();
    let mut i: usize = 0;
    while i < ignore.len()
        invariant
            i <= ignore@.len(),
            ig == ignore.deep_view(),
            ig.len() == ignore@.len(),
            forall|j: int| 0 <= j < ig.len() ==> ig[j] == (#[trigger] ignore@[j])@,
            patterns_ok(ig),
            forall|j: int| 0 <= j < i ==> !glob_path_matches(#[trigger] ig[j], path@),
        decreases ignore@.len() - i,
    {
        if glob_match(&ignore[i], path) {
            return true;
        }
        i = i + 1;
    }
    false
}

} // verus!
