//! Building packages and planning their application.
//!
//! A package bundles a manifest (the diff between two snapshots) with the
//! bytes of every added or changed file. Building one takes the two
//! snapshots and the new directory's file contents; applying one is planned
//! here as a list of writes and deletes over plain values, which the caller
//! carries out on the real directory. The lemmas at the end state the
//! engine's central guarantees: a package built from A to B, applied to A's
//! contents, scans exactly like B, and applying the same plan twice changes
//! nothing further.

use vstd::prelude::*;

use crate::archive::{
    append_ok, archive_append, archive_entries, archive_finish, archive_new, finish_of,
    unpack_archive, unpack_of,
};
use crate::container::{
    check_magic, container_bytes, container_magic_ok, encode_container, lemma_container_round,
    manifest_block, payload_block, spec_manifest_block, spec_payload_block,
};
use crate::diff::{
    add_list, change_list, delete_list, is_diff_of, lemma_add_list_member,
    lemma_change_list_member, nodup, Diff, DiffView,
};
use crate::error::Error;
use crate::hashing::sha256_hex_of;
use crate::manifest::{
    lemma_manifest_bytes_round, manifest_bytes, spec_parse_manifest_bytes, Manifest, ManifestView,
};
use crate::metadata::Metadata;
use crate::pathmap::{assoc_find, map_of};
use crate::state::{path_normal, path_tracked, spec_scan, table_paths_normal, FileEntry, State};

verus! {

/// The payload entries for the given paths: each path with its content.
pub open spec fn entries_for(paths: Seq<Seq<char>>, c: Map<Seq<char>, Seq<u8>>) -> Seq<
    (Seq<char>, Seq<u8>),
> {
    Seq::new(paths.len(), |i: int| (paths[i], c[paths[i]]))
}

/// The manifest a container's bytes decode to, if they decode at all.
pub open spec fn decoded_manifest(d: Seq<u8>) -> Option<ManifestView> {
    match spec_manifest_block(d) {
        None => None,
        Some(mb) => spec_parse_manifest_bytes(mb),
    }
}

/// What a well-formed package built from snapshots `a` to `b` over the new
/// directory's contents `c` looks like: the container decodes, its manifest
/// carries the classification between `a` and `b` under the given versions,
/// and its payload unpacks to the added and changed files' bytes, in order.
pub open spec fn package_ok(
    bytes: Seq<u8>,
    old_version: Seq<char>,
    new_version: Seq<char>,
    a: Map<Seq<char>, Seq<char>>,
    b: Map<Seq<char>, Seq<char>>,
    c: Map<Seq<char>, Seq<u8>>,
) -> bool {
    &&& container_magic_ok(bytes)
    &&& spec_manifest_block(bytes) is Some
    &&& spec_payload_block(bytes) is Some
    &&& decoded_manifest(bytes) is Some
    &&& {
        let m = decoded_manifest(bytes).unwrap();
        &&& m.version == "0.1.0"@
        &&& m.diff.old_version == old_version
        &&& m.diff.new_version == new_version
        &&& is_diff_of(m.diff, a, b)
        &&& nodup(m.diff.add)
        &&& nodup(m.diff.change)
        &&& nodup(m.diff.delete)
        &&& forall|j: int|
            0 <= j < (m.diff.add + m.diff.change).len() ==> c.contains_key(
                #[trigger] (m.diff.add + m.diff.change)[j],
            )
        &&& unpack_of(spec_payload_block(bytes).unwrap()) == Some(
            entries_for(m.diff.add + m.diff.change, c),
        )
    }
}

/// The paths whose contents a package from snapshot `a` over the new file
/// table `nfiles` must carry: the additions, then the changes, in table
/// order.
pub open spec fn build_paths(
    a: Map<Seq<char>, Seq<char>>,
    nfiles: Seq<(Seq<char>, Seq<char>)>,
) -> Seq<Seq<char>> {
    add_list(a, nfiles) + change_list(a, nfiles)
}

/// Whether the archive engine accepts every entry for `paths` with contents
/// `c`, appended in order.
pub open spec fn builds_ok(paths: Seq<Seq<char>>, c: Map<Seq<char>, Seq<u8>>) -> bool
    decreases paths.len(),
{
    if paths.len() == 0 {
        true
    } else {
        builds_ok(paths.drop_last(), c) && append_ok(
            entries_for(paths.drop_last(), c),
            paths.last(),
            c[paths.last()],
        )
    }
}

/// Acceptance of a whole build extends to every prefix of it.
proof fn lemma_builds_ok_prefix(paths: Seq<Seq<char>>, c: Map<Seq<char>, Seq<u8>>, n: int)
    requires
        0 <= n <= paths.len(),
        builds_ok(paths, c),
    ensures
        builds_ok(paths.take(n), c),
    decreases paths.len(),
{
    if n < paths.len() {
        assert(paths.drop_last() =~= paths.take(paths.len() - 1));
        lemma_builds_ok_prefix(paths.drop_last(), c, n);
        assert(paths.drop_last().take(n) =~= paths.take(n));
    } else {
        assert(paths.take(n) =~= paths);
    }
}

/// The manifest a package built from snapshot `a` to snapshot `b` carries.
pub open spec fn built_manifest(a: State, b: State) -> ManifestView {
    ManifestView {
        version: "0.1.0"@,
        diff: DiffView {
            old_version: a.version@,
            new_version: b.version@,
            add: add_list(a.files_map(), b.files.deep_view()),
            change: change_list(a.files_map(), b.files.deep_view()),
            delete: delete_list(b.files_map(), a.files.deep_view()),
        },
    }
}

/// Encodes the package that patches snapshot `a` into snapshot `b`, given
/// the new directory's files as relative path and content pairs. The added
/// and changed paths are checked against `b_contents` before any archive
/// work, so `MissingSourceFile` comes exactly when one of them has no
/// entry. The new snapshot's paths must be in normal form, as every scan
/// produces them, since the archive engine stores exactly such paths
/// verbatim. Otherwise the result is owed: it fails with `ExtractionError`
/// exactly when the archive engine refuses an entry or the finish, or a
/// block outgrows its 32-bit length prefix, and on success the bytes are
/// exactly the framed container of the built manifest and the finished
/// payload.
#[verifier::loop_isolation(false)]
#[verifier::rlimit(100)]
pub fn create_package(a: &State, b: &State, b_contents: &Vec<FileEntry>) -> (r: Result<
    Vec<u8>,
    Error,
>)
    requires
        a.wf(),
        b.wf(),
        table_paths_normal(b.files.deep_view()),
    ensures
        (exists|j: int|
            0 <= j < build_paths(a.files_map(), b.files.deep_view()).len() && !map_of(
                b_contents.deep_view(),
            ).contains_key(#[trigger] build_paths(a.files_map(), b.files.deep_view())[j])) <==> (
        r matches Err(Error::MissingSourceFile { path: _ })),
        match r {
            Ok(bytes) => {
                &&& builds_ok(
                    build_paths(a.files_map(), b.files.deep_view()),
                    map_of(b_contents.deep_view()),
                )
                &&& finish_of(
                    entries_for(
                        build_paths(a.files_map(), b.files.deep_view()),
                        map_of(b_contents.deep_view()),
                    ),
                ) is Some
                &&& bytes@ == container_bytes(
                    manifest_bytes(built_manifest(*a, *b)),
                    finish_of(
                        entries_for(
                            build_paths(a.files_map(), b.files.deep_view()),
                            map_of(b_contents.deep_view()),
                        ),
                    ).unwrap(),
                )
                &&& package_ok(
                    bytes@,
                    a.version@,
                    b.version@,
                    a.files_map(),
                    b.files_map(),
                    map_of(b_contents.deep_view()),
                )
            },
            Err(e) => match e {
                Error::MissingSourceFile { path } => {
                    &&& build_paths(a.files_map(), b.files.deep_view()).contains(path@)
                    &&& b.files_map().contains_key(path@)
                    &&& !a.files_map().contains_key(path@) || a.files_map()[path@]
                        != b.files_map()[path@]
                    &&& !map_of(b_contents.deep_view()).contains_key(path@)
                },
                Error::ExtractionError => {
                    &&& forall|j: int|
                        0 <= j < build_paths(a.files_map(), b.files.deep_view()).len() ==> map_of(
                            b_contents.deep_view(),
                        ).contains_key(
                            #[trigger] build_paths(a.files_map(), b.files.deep_view())[j],
                        )
                    &&& {
                        ||| !builds_ok(
                            build_paths(a.files_map(), b.files.deep_view()),
                            map_of(b_contents.deep_view()),
                        )
                        ||| finish_of(
                            entries_for(
                                build_paths(a.files_map(), b.files.deep_view()),
                                map_of(b_contents.deep_view()),
                            ),
                        ) is None
                        ||| manifest_bytes(built_manifest(*a, *b)).len() > u32::MAX
                        ||| finish_of(
                            entries_for(
                                build_paths(a.files_map(), b.files.deep_view()),
                                map_of(b_contents.deep_view()),
                            ),
                        ).unwrap().len() > u32::MAX
                    }
                },
                _ => false,
            },
        },
{
    let d = Diff::from_states(a, b);
    let ghost amap = a.files_map();
    let ghost bmap = b.files_map();
    let ghost cmap = map_of(b_contents.deep_view());
    let ghost bdv = b.files.deep_view();
    // The paths whose contents the package carries: additions, then changes.
    let mut targets: Vec<String> = Vec::new();
    let mut i: usize = 0;
    while i < d.add.len()
        invariant
            i <= d@.add.len(),
            targets.deep_view() == d@.add.take(i as int),
            forall|j: int|
                0 <= j < targets@.len() ==> #[trigger] targets.deep_view()[j] == targets@[j]@,
        decreases d@.add.len() - i,
    {
        let ghost pre = targets.deep_view();
        targets.push(d.add[i].clone());
        proof {
            assert(targets.deep_view() =~= pre.push(d@.add[i as int]));
            assert(targets.deep_view() =~= d@.add.take(i + 1));
        }
        i = i + 1;
    }
    let mut k: usize = 0;
    while k < d.change.len()
        invariant
            k <= d@.change.len(),
            targets.deep_view() == d@.add + d@.change.take(k as int),
            forall|j: int|
                0 <= j < targets@.len() ==> #[trigger] targets.deep_view()[j] == targets@[j]@,
        decreases d@.change.len() - k,
    {
        let ghost pre = targets.deep_view();
        targets.push(d.change[k].clone());
        proof {
            assert(targets.deep_view() =~= pre.push(d@.change[k as int]));
            assert(targets.deep_view() =~= d@.add + d@.change.take(k + 1));
        }
        k = k + 1;
    }
    let ghost tdv = targets.deep_view();
    proof {
        assert(d@.add.take(d@.add.len() as int) =~= d@.add);
        assert(d@.change.take(d@.change.len() as int) =~= d@.change);
        assert(tdv =~= d@.add + d@.change);
        assert(tdv == build_paths(amap, bdv));
        assert forall|x: int| 0 <= x < tdv.len() implies path_normal(#[trigger] tdv[x]) by {
            if x < add_list(amap, bdv).len() {
                lemma_add_list_member(amap, bdv, x);
                let j = choose|j: int|
                    0 <= j < bdv.len() && add_list(amap, bdv)[x] == (#[trigger] bdv[j]).0;
                assert(tdv[x] == bdv[j].0);
            } else {
                lemma_change_list_member(amap, bdv, x - add_list(amap, bdv).len());
                let j = choose|j: int|
                    0 <= j < bdv.len() && change_list(amap, bdv)[x - add_list(amap, bdv).len()]
                        == (#[trigger] bdv[j]).0;
                assert(tdv[x] == bdv[j].0);
            }
        }
    }
    // Check every needed path before any archive work, so a missing source
    // file is reported as such, never masked by an engine failure.
    let mut n: usize = 0;
    while n < targets.len()
        invariant
            n <= targets@.len(),
            forall|j: int| 0 <= j < n ==> cmap.contains_key(#[trigger] tdv[j]),
        decreases targets@.len() - n,
    {
        let path: &String = &targets[n];
        if assoc_find(b_contents, path).is_none() {
            proof {
                assert(tdv[n as int] == path@);
                assert(tdv.contains(path@));
                assert(d@.add.contains(path@) || d@.change.contains(path@)) by {
                    if n < d@.add.len() {
                        assert(tdv[n as int] == d@.add[n as int]);
                    } else {
                        assert(tdv[n as int] == d@.change[n - d@.add.len()]);
                    }
                }
            }
            return Err(Error::MissingSourceFile { path: path.clone() });
        }
        n = n + 1;
    }
    proof {
        assert forall|j: int| 0 <= j < tdv.len() implies cmap.contains_key(#[trigger] tdv[j]) by {}
    }
    // Build the payload archive, one entry per needed path, in order.
    let mut builder = archive_new();
    let mut w: usize = 0;
    while w < targets.len()
        invariant
            w <= targets@.len(),
            archive_entries(builder) == entries_for(tdv.take(w as int), cmap),
            builds_ok(tdv.take(w as int), cmap),
        decreases targets@.len() - w,
    {
        let path: &String = &targets[w];
        proof {
            assert(tdv[w as int] == path@);
            assert(path_normal(tdv[w as int]));
        }
        match assoc_find(b_contents, path) {
            None => {
                proof {
                    assert(cmap.contains_key(path@));
                    assert(false);
                }
                return Err(Error::ExtractionError);
            },
            Some(idx) => {
                let ghost pre = archive_entries(builder);
                let ok = archive_append(&mut builder, path, &b_contents[idx].1);
                proof {
                    assert(b_contents@[idx as int].1.deep_view() =~= b_contents@[idx as int].1@);
                    assert(cmap[path@] == b_contents@[idx as int].1@);
                    assert(tdv.take(w + 1).drop_last() =~= tdv.take(w as int));
                    assert(tdv.take(w + 1).last() == tdv[w as int]);
                }
                if !ok {
                    proof {
                        assert(!append_ok(entries_for(tdv.take(w as int), cmap), path@, cmap[path@]));
                        assert(!builds_ok(tdv.take(w + 1), cmap));
                        if builds_ok(tdv, cmap) {
                            lemma_builds_ok_prefix(tdv, cmap, w + 1);
                        }
                        assert(!builds_ok(tdv, cmap));
                    }
                    return Err(Error::ExtractionError);
                }
                proof {
                    assert(entries_for(tdv.take(w + 1), cmap) =~= pre.push(
                        (path@, b_contents@[idx as int].1@),
                    ));
                    assert(builds_ok(tdv.take(w + 1), cmap));
                }
            },
        }
        w = w + 1;
    }
    proof {
        assert(tdv.take(tdv.len() as int) =~= tdv);
    }
    // Finish the compressed stream.
    let payload = match archive_finish(builder) {
        None => {
            proof {
                assert(finish_of(entries_for(tdv, cmap)) is None);
            }
            return Err(Error::ExtractionError);
        },
        Some(p) => p,
    };
    // Frame the manifest and the payload into the container.
    let man = Manifest { version: "0.1.0".to_owned(), diff: d };
    proof {
        assert(man@ == built_manifest(*a, *b));
    }
    let mb = man.to_bytes();
    let container = match encode_container(&mb, &payload) {
        None => {
            proof {
                assert(mb@ == manifest_bytes(built_manifest(*a, *b)));
                assert(payload@ == finish_of(entries_for(tdv, cmap)).unwrap());
            }
            return Err(Error::ExtractionError);
        },
        Some(c) => c,
    };
    proof {
        lemma_container_round(mb@, payload@);
        lemma_manifest_bytes_round(man@);
        assert(decoded_manifest(container@) == Some(man@));
        assert forall|j: int|
            0 <= j < (man@.diff.add + man@.diff.change).len() implies cmap.contains_key(
            #[trigger] (man@.diff.add + man@.diff.change)[j],
        ) by {
            assert((man@.diff.add + man@.diff.change)[j] == tdv[j]);
        }
        assert(man@.diff.add + man@.diff.change =~= tdv);
    }
    Ok(container)
}

/// Decodes just the manifest of a package: the magic token, the first
/// length-prefixed block, and its JSON. The payload is never touched, so a
/// listing needs only the head of the file. A wrong magic token fails with
/// `BadMagic` before anything further is read; a truncated block or
/// unparseable JSON fails with `MalformedManifest`.
pub fn read_package_manifest(data: &Vec<u8>) -> (r: Result<Manifest, Error>)
    ensures
        match r {
            Ok(m) => container_magic_ok(data@) && decoded_manifest(data@) == Some(m@),
            Err(e) => match e {
                Error::BadMagic => !container_magic_ok(data@),
                Error::MalformedManifest => container_magic_ok(data@) && decoded_manifest(data@)
                    is None,
                _ => false,
            },
        },
{
    if !check_magic(data) {
        return Err(Error::BadMagic);
    }
    let mb = match manifest_block(data) {
        None => {
            return Err(Error::MalformedManifest);
        },
        Some(mb) => mb,
    };
    match Manifest::from_bytes(mb) {
        None => Err(Error::MalformedManifest),
        Some(m) => Ok(m),
    }
}

/// Everything the caller must do to a directory to apply a package: write
/// these files with these bytes, in order, then delete these paths. A
/// missing file at delete time is not a failure for the caller, only a
/// warning.
pub struct PatchPlan {
    /// Relative path and content of every file to create or overwrite.
    pub writes: Vec<(String, Vec<u8>)>,
    /// Relative path of every file to remove.
    pub deletes: Vec<String>,
}

/// Plans the application of a package to a directory whose marker metadata
/// the caller has read. Nothing is mutated here: a failed plan leaves every
/// file as it was. The container is checked in order: magic token, manifest,
/// version precondition, payload. The plan's writes are the payload's
/// entries in container order; its deletes are the manifest's delete list.
pub fn plan_patch(data: &Vec<u8>, meta: &Metadata) -> (r: Result<PatchPlan, Error>)
    ensures
        match r {
            Ok(plan) => {
                &&& decoded_manifest(data@) is Some
                &&& spec_payload_block(data@) is Some
                &&& {
                    let m = decoded_manifest(data@).unwrap();
                    &&& m.diff.old_version == meta@.version
                    &&& unpack_of(spec_payload_block(data@).unwrap()) == Some(
                        plan.writes.deep_view(),
                    )
                    &&& plan.deletes.deep_view() == m.diff.delete
                }
            },
            Err(e) => match e {
                Error::BadMagic => !container_magic_ok(data@),
                Error::MalformedManifest => container_magic_ok(data@) && decoded_manifest(data@)
                    is None,
                Error::VersionMismatch { expected, actual } => {
                    &&& decoded_manifest(data@) is Some
                    &&& decoded_manifest(data@).unwrap().diff.old_version != meta@.version
                    &&& expected@ == decoded_manifest(data@).unwrap().diff.old_version
                    &&& actual@ == meta@.version
                },
                Error::ExtractionError => {
                    &&& decoded_manifest(data@) is Some
                    &&& decoded_manifest(data@).unwrap().diff.old_version == meta@.version
                    &&& spec_payload_block(data@) is None || unpack_of(
                        spec_payload_block(data@).unwrap(),
                    ) is None
                },
                _ => false,
            },
        },
{
    if !check_magic(data) {
        return Err(Error::BadMagic);
    }
    let mb = match manifest_block(data) {
        None => {
            return Err(Error::MalformedManifest);
        },
        Some(mb) => mb,
    };
    let m = match Manifest::from_bytes(mb) {
        None => {
            return Err(Error::MalformedManifest);
        },
        Some(m) => m,
    };
    if !(m.diff.old_version == meta.version) {
        return Err(
            Error::VersionMismatch {
                expected: m.diff.old_version.clone(),
                actual: meta.version.clone(),
            },
        );
    }
    let pb = match payload_block(data) {
        None => {
            return Err(Error::ExtractionError);
        },
        Some(p) => p,
    };
    let entries = match unpack_archive(&pb) {
        None => {
            return Err(Error::ExtractionError);
        },
        Some(e) => e,
    };
    Ok(PatchPlan { writes: entries, deletes: m.diff.delete })
}

/// The contents of a directory after the plan's writes: each write creates
/// or overwrites the file at its path, in order.
pub open spec fn apply_writes(m: Map<Seq<char>, Seq<u8>>, w: Seq<(Seq<char>, Seq<u8>)>) -> Map<
    Seq<char>,
    Seq<u8>,
>
    decreases w.len(),
{
    if w.len() == 0 {
        m
    } else {
        apply_writes(m.insert(w[0].0, w[0].1), w.drop_first())
    }
}

/// The contents of a directory after the plan's deletes: removing an absent
/// path changes nothing, matching the non-fatal delete warning.
pub open spec fn apply_deletes(m: Map<Seq<char>, Seq<u8>>, d: Seq<Seq<char>>) -> Map<
    Seq<char>,
    Seq<u8>,
>
    decreases d.len(),
{
    if d.len() == 0 {
        m
    } else {
        apply_deletes(m.remove(d[0]), d.drop_first())
    }
}

/// The contents of a directory after a whole plan: writes, then deletes.
pub open spec fn apply_plan(
    m: Map<Seq<char>, Seq<u8>>,
    w: Seq<(Seq<char>, Seq<u8>)>,
    d: Seq<Seq<char>>,
) -> Map<Seq<char>, Seq<u8>> {
    apply_deletes(apply_writes(m, w), d)
}

/// What writes do at one path: they add exactly the written keys, and leave
/// a path no write names untouched.
pub proof fn lemma_apply_writes_at(m: Map<Seq<char>, Seq<u8>>, w: Seq<(Seq<char>, Seq<u8>)>, p: Seq<char>)
    ensures
        apply_writes(m, w).contains_key(p) <==> (m.contains_key(p) || exists|j: int|
            0 <= j < w.len() && (#[trigger] w[j]).0 == p),
        (forall|j: int| 0 <= j < w.len() ==> (#[trigger] w[j]).0 != p) ==> (apply_writes(
            m,
            w,
        ).contains_key(p) == m.contains_key(p) && (m.contains_key(p) ==> apply_writes(m, w)[p]
            == m[p])),
    decreases w.len(),
{
    if w.len() > 0 {
        lemma_apply_writes_at(m.insert(w[0].0, w[0].1), w.drop_first(), p);
        assert forall|j: int|
            0 <= j < w.drop_first().len() implies #[trigger] w.drop_first()[j] == w[j + 1] by {}
        if exists|j: int| 0 <= j < w.len() && (#[trigger] w[j]).0 == p {
            let jj = choose|jj: int| 0 <= jj < w.len() && (#[trigger] w[jj]).0 == p;
            if jj > 0 {
                assert((w.drop_first()[jj - 1]).0 == p);
            }
        }
        if exists|j: int| 0 <= j < w.drop_first().len() && (#[trigger] w.drop_first()[j]).0 == p {
            let x = choose|x: int|
                0 <= x < w.drop_first().len() && (#[trigger] w.drop_first()[x]).0 == p;
            assert((w[x + 1]).0 == p);
        }
    }
}

/// What writes do at a written path: with pairwise-distinct write keys, the
/// path ends up holding its written bytes.
pub proof fn lemma_apply_writes_value(
    m: Map<Seq<char>, Seq<u8>>,
    w: Seq<(Seq<char>, Seq<u8>)>,
    p: Seq<char>,
    j: int,
)
    requires
        0 <= j < w.len(),
        w[j].0 == p,
        forall|x: int, y: int| 0 <= x < y < w.len() ==> (#[trigger] w[x]).0 != (#[trigger] w[y]).0,
    ensures
        apply_writes(m, w).contains_key(p),
        apply_writes(m, w)[p] == w[j].1,
    decreases w.len(),
{
    let m1 = m.insert(w[0].0, w[0].1);
    assert forall|x: int|
        0 <= x < w.drop_first().len() implies #[trigger] w.drop_first()[x] == w[x + 1] by {}
    if j == 0 {
        lemma_apply_writes_at(m1, w.drop_first(), p);
        assert forall|x: int| 0 <= x < w.drop_first().len() implies (#[trigger] w.drop_first()[x]).0
            != p by {
            assert(w[x + 1].0 != w[0].0);
        }
    } else {
        lemma_apply_writes_value(m1, w.drop_first(), p, j - 1);
    }
}

/// What deletes do at one path: a deleted path is gone, any other keeps its
/// bytes.
pub proof fn lemma_apply_deletes_at(m: Map<Seq<char>, Seq<u8>>, d: Seq<Seq<char>>, p: Seq<char>)
    ensures
        apply_deletes(m, d).contains_key(p) <==> (m.contains_key(p) && !d.contains(p)),
        !d.contains(p) && m.contains_key(p) ==> apply_deletes(m, d)[p] == m[p],
    decreases d.len(),
{
    if d.len() > 0 {
        lemma_apply_deletes_at(m.remove(d[0]), d.drop_first(), p);
        assert forall|x: int|
            0 <= x < d.drop_first().len() implies #[trigger] d.drop_first()[x] == d[x + 1] by {}
        if d.contains(p) {
            let x = choose|x: int| 0 <= x < d.len() && d[x] == p;
            if x > 0 {
                assert(d.drop_first()[x - 1] == p);
                assert(d.drop_first().contains(p));
            }
        } else {
            assert(d[0] != p);
            if d.drop_first().contains(p) {
                let x = choose|x: int| 0 <= x < d.drop_first().len() && d.drop_first()[x] == p;
                assert(d[x + 1] == p);
            }
        }
    }
}

/// Applying a package to the contents it was built from restores the new
/// snapshot: writing the added and changed files and removing the deleted
/// ones, then scanning under the new rules, gives exactly the new
/// snapshot's file table.
///
/// One family of inputs stays outside the final premise: a file of the old
/// directory that the old rules ignore, the new rules track, and the new
/// directory does not carry. Such a file is invisible to the diff yet would
/// surface in a scan of the patched directory. Whenever the ignore rules do
/// not change between the two snapshots, the premise holds trivially.
#[verifier::rlimit(100)]
pub proof fn lemma_patch_restores(
    ig_a: Seq<Seq<char>>,
    ig_b: Seq<Seq<char>>,
    ca: Map<Seq<char>, Seq<u8>>,
    cb: Map<Seq<char>, Seq<u8>>,
    d: DiffView,
    writes: Seq<(Seq<char>, Seq<u8>)>,
)
    requires
        is_diff_of(d, spec_scan(ig_a, ca), spec_scan(ig_b, cb)),
        nodup(d.add),
        nodup(d.change),
        writes == entries_for(d.add + d.change, cb),
        forall|p: Seq<char>|
            ca.contains_key(p) && !cb.contains_key(p) && #[trigger] path_tracked(ig_b, p)
                ==> path_tracked(ig_a, p),
    ensures
        spec_scan(ig_b, apply_plan(ca, writes, d.delete)) == spec_scan(ig_b, cb),
{
    let a = spec_scan(ig_a, ca);
    let b = spec_scan(ig_b, cb);
    let mw = apply_writes(ca, writes);
    let patched = apply_plan(ca, writes, d.delete);
    let paths = d.add + d.change;
    assert forall|x: int, y: int|
        0 <= x < y < writes.len() implies (#[trigger] writes[x]).0 != (#[trigger] writes[y]).0 by {
        assert(writes[x].0 == paths[x]);
        assert(writes[y].0 == paths[y]);
        if x < d.add.len() && y < d.add.len() {
            assert(d.add[x] != d.add[y]);
        } else if x >= d.add.len() && y >= d.add.len() {
            assert(paths[x] == d.change[x - d.add.len()]);
            assert(paths[y] == d.change[y - d.add.len()]);
        } else {
            assert(paths[x] == d.add[x]);
            assert(paths[y] == d.change[y - d.add.len()]);
            assert(d.add.contains(paths[x]));
            assert(d.change.contains(paths[y]));
        }
    }
    assert forall|p: Seq<char>|
        #![trigger spec_scan(ig_b, patched).contains_key(p)]
        #![trigger spec_scan(ig_b, cb).contains_key(p)]
        spec_scan(ig_b, patched).contains_key(p) == b.contains_key(p) && (b.contains_key(p)
            ==> spec_scan(ig_b, patched)[p] == b[p]) by {
        lemma_apply_writes_at(ca, writes, p);
        lemma_apply_deletes_at(mw, d.delete, p);
        assert(d.add.contains(p) || d.change.contains(p) || (!d.add.contains(p)
            && !d.change.contains(p)));
        if path_tracked(ig_b, p) {
            if b.contains_key(p) {
                assert(cb.contains_key(p));
                assert(!d.delete.contains(p));
                if d.add.contains(p) || d.change.contains(p) {
                    let jj = if d.add.contains(p) {
                        choose|jj: int| 0 <= jj < d.add.len() && d.add[jj] == p
                    } else {
                        d.add.len() as int + choose|jj: int|
                            0 <= jj < d.change.len() && d.change[jj] == p
                    };
                    assert(paths[jj] == p);
                    assert(writes[jj] == (p, cb[p]));
                    lemma_apply_writes_value(ca, writes, p, jj);
                    assert(patched.contains_key(p));
                    assert(patched[p] == cb[p]);
                } else {
                    assert(a.contains_key(p));
                    assert(a[p] == b[p]);
                    assert(ca.contains_key(p));
                    assert(a[p] == sha256_hex_of(ca[p]));
                    assert forall|j: int|
                        0 <= j < writes.len() implies (#[trigger] writes[j]).0 != p by {
                        assert(writes[j].0 == paths[j]);
                        if j < d.add.len() {
                            assert(d.add.contains(paths[j]));
                        } else {
                            assert(d.change.contains(paths[j]));
                        }
                    }
                    assert(patched.contains_key(p));
                    assert(patched[p] == ca[p]);
                }
            } else {
                assert(!cb.contains_key(p));
                assert forall|j: int| 0 <= j < writes.len() implies (#[trigger] writes[j]).0
                    != p by {
                    assert(writes[j].0 == paths[j]);
                    if j < d.add.len() {
                        assert(d.add.contains(paths[j]));
                    } else {
                        assert(d.change.contains(paths[j]));
                    }
                }
                if ca.contains_key(p) {
                    assert(path_tracked(ig_a, p));
                    assert(a.contains_key(p));
                    assert(d.delete.contains(p));
                    assert(!patched.contains_key(p));
                } else {
                    assert(!mw.contains_key(p));
                    assert(!patched.contains_key(p));
                }
            }
        }
    }
    assert(spec_scan(ig_b, patched) =~= b);
}

/// The round trip of the engine, over the artifacts its functions produce:
/// take a package whose bytes are well formed for snapshots `a = scan(ca)`
/// and `b = scan(cb)` (as `create_package` ensures), unpack its payload
/// into a write list (as `plan_patch` ensures), and apply the writes and
/// the manifest's deletes to the old contents; scanning the result under
/// the new rules yields exactly the new snapshot.
pub proof fn lemma_package_round_trip(
    bytes: Seq<u8>,
    old_version: Seq<char>,
    new_version: Seq<char>,
    ig_a: Seq<Seq<char>>,
    ig_b: Seq<Seq<char>>,
    ca: Map<Seq<char>, Seq<u8>>,
    cb: Map<Seq<char>, Seq<u8>>,
    writes: Seq<(Seq<char>, Seq<u8>)>,
)
    requires
        package_ok(bytes, old_version, new_version, spec_scan(ig_a, ca), spec_scan(ig_b, cb), cb),
        unpack_of(spec_payload_block(bytes).unwrap()) == Some(writes),
        forall|p: Seq<char>|
            ca.contains_key(p) && !cb.contains_key(p) && #[trigger] path_tracked(ig_b, p)
                ==> path_tracked(ig_a, p),
    ensures
        spec_scan(
            ig_b,
            apply_plan(ca, writes, decoded_manifest(bytes).unwrap().diff.delete),
        ) == spec_scan(ig_b, cb),
{
    let m = decoded_manifest(bytes).unwrap();
    assert(writes == entries_for(m.diff.add + m.diff.change, cb));
    lemma_patch_restores(ig_a, ig_b, ca, cb, m.diff, writes);
}

/// Applying the same plan twice is the same as applying it once: writes are
/// idempotent overwrites and deletes of already-absent paths are no-ops, so
/// a package may be re-applied to an already-patched directory.
pub proof fn lemma_patch_idempotent(
    m: Map<Seq<char>, Seq<u8>>,
    w: Seq<(Seq<char>, Seq<u8>)>,
    d: Seq<Seq<char>>,
)
    requires
        forall|x: int, y: int| 0 <= x < y < w.len() ==> (#[trigger] w[x]).0 != (#[trigger] w[y]).0,
        forall|j: int| 0 <= j < w.len() ==> !d.contains((#[trigger] w[j]).0),
    ensures
        apply_plan(apply_plan(m, w, d), w, d) == apply_plan(m, w, d),
{
    let m1 = apply_plan(m, w, d);
    let m2 = apply_plan(m1, w, d);
    assert forall|p: Seq<char>|
        #![trigger m2.contains_key(p)]
        #![trigger m1.contains_key(p)]
        m2.contains_key(p) == m1.contains_key(p) && (m1.contains_key(p) ==> m2[p] == m1[p]) by {
        lemma_apply_writes_at(m, w, p);
        lemma_apply_deletes_at(apply_writes(m, w), d, p);
        lemma_apply_writes_at(m1, w, p);
        lemma_apply_deletes_at(apply_writes(m1, w), d, p);
        if exists|j: int| 0 <= j < w.len() && (#[trigger] w[j]).0 == p {
            let j = choose|j: int| 0 <= j < w.len() && (#[trigger] w[j]).0 == p;
            lemma_apply_writes_value(m, w, p, j);
            lemma_apply_writes_value(m1, w, p, j);
            assert(!d.contains(p));
        }
    }
    assert(m2 =~= m1);
}

} // verus!

