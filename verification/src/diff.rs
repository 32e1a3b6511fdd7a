//! Snapshot comparison.
//!
//! A diff lists, relative to an old and a new snapshot, the paths that only
//! the new one has (`add`), the paths both have with differing digests
//! (`change`), and the paths only the old one has (`delete`). The three lists
//! are pairwise disjoint by construction; they come in snapshot table order,
//! which carries no meaning for consumers but is fixed by the contract.

use vstd::prelude::*;

use crate::pathmap::{assoc_find, lemma_assoc_at, lemma_assoc_none, map_of};
use crate::state::{marker_name, path_ignored, path_tracked, spec_scan, State};

verus! {

/// The mathematical reading of a diff.
pub struct DiffView {
    pub old_version: Seq<char>,
    pub new_version: Seq<char>,
    pub add: Seq<Seq<char>>,
    pub change: Seq<Seq<char>>,
    pub delete: Seq<Seq<char>>,
}

/// The add/change/delete classification between two snapshots.
pub struct Diff {
    /// The version of the snapshot the diff starts from.
    pub old_version: String,
    /// The version of the snapshot the diff leads to.
    pub new_version: String,
    /// Paths present only in the new snapshot.
    pub add: Vec<String>,
    /// Paths present in both snapshots with differing digests.
    pub change: Vec<String>,
    /// Paths present only in the old snapshot.
    pub delete: Vec<String>,
}

impl View for Diff {
    type V = DiffView;

    open spec fn view(&self) -> DiffView {
        DiffView {
            old_version: self.old_version@,
            new_version: self.new_version@,
            add: self.add.deep_view(),
            change: self.change.deep_view(),
            delete: self.delete.deep_view(),
        }
    }
}

/// No element of the sequence occurs twice.
pub open spec fn nodup(s: Seq<Seq<char>>) -> bool {
    forall|i: int, j: int| 0 <= i < j < s.len() ==> s[i] != s[j]
}

/// The three lists of `d` classify every path exactly as a comparison of the
/// mappings `a` and `b` does.
pub open spec fn is_diff_of(
    d: DiffView,
    a: Map<Seq<char>, Seq<char>>,
    b: Map<Seq<char>, Seq<char>>,
) -> bool {
    &&& forall|p: Seq<char>|
        #![trigger d.add.contains(p)]
        d.add.contains(p) <==> b.contains_key(p) && !a.contains_key(p)
    &&& forall|p: Seq<char>|
        #![trigger d.change.contains(p)]
        d.change.contains(p) <==> a.contains_key(p) && b.contains_key(p) && a[p] != b[p]
    &&& forall|p: Seq<char>|
        #![trigger d.delete.contains(p)]
        d.delete.contains(p) <==> a.contains_key(p) && !b.contains_key(p)
}

/// The added paths a comparison yields, in the new snapshot's table order:
/// every key of `nfiles` that `old` lacks.
pub open spec fn add_list(
    old: Map<Seq<char>, Seq<char>>,
    nfiles: Seq<(Seq<char>, Seq<char>)>,
) -> Seq<Seq<char>>
    decreases nfiles.len(),
{
    if nfiles.len() == 0 {
        Seq::empty()
    } else {
        add_list(old, nfiles.drop_last()) + (if !old.contains_key(nfiles.last().0) {
            seq![nfiles.last().0]
        } else {
            Seq::empty()
        })
    }
}

/// The changed paths a comparison yields, in the new snapshot's table order:
/// every key of `nfiles` that `old` holds with a different digest.
pub open spec fn change_list(
    old: Map<Seq<char>, Seq<char>>,
    nfiles: Seq<(Seq<char>, Seq<char>)>,
) -> Seq<Seq<char>>
    decreases nfiles.len(),
{
    if nfiles.len() == 0 {
        Seq::empty()
    } else {
        change_list(old, nfiles.drop_last()) + (if old.contains_key(nfiles.last().0)
            && old[nfiles.last().0] != nfiles.last().1 {
            seq![nfiles.last().0]
        } else {
            Seq::empty()
        })
    }
}

/// The deleted paths a comparison yields, in the old snapshot's table order:
/// every key of `ofiles` that `new` lacks.
pub open spec fn delete_list(
    new: Map<Seq<char>, Seq<char>>,
    ofiles: Seq<(Seq<char>, Seq<char>)>,
) -> Seq<Seq<char>>
    decreases ofiles.len(),
{
    if ofiles.len() == 0 {
        Seq::empty()
    } else {
        delete_list(new, ofiles.drop_last()) + (if !new.contains_key(ofiles.last().0) {
            seq![ofiles.last().0]
        } else {
            Seq::empty()
        })
    }
}

/// Every added path is a key of the new file table.
pub proof fn lemma_add_list_member(
    old: Map<Seq<char>, Seq<char>>,
    nfiles: Seq<(Seq<char>, Seq<char>)>,
    i: int,
)
    requires
        0 <= i < add_list(old, nfiles).len(),
    ensures
        exists|j: int| 0 <= j < nfiles.len() && add_list(old, nfiles)[i] == (#[trigger] nfiles[j]).0,
    decreases nfiles.len(),
{
    if i < add_list(old, nfiles.drop_last()).len() {
        lemma_add_list_member(old, nfiles.drop_last(), i);
        let j = choose|j: int|
            0 <= j < nfiles.drop_last().len() && add_list(old, nfiles.drop_last())[i] == (
            #[trigger] nfiles.drop_last()[j]).0;
        assert(nfiles[j] == nfiles.drop_last()[j]);
    } else {
        assert(add_list(old, nfiles)[i] == nfiles[nfiles.len() - 1].0);
    }
}

/// Every changed path is a key of the new file table.
pub proof fn lemma_change_list_member(
    old: Map<Seq<char>, Seq<char>>,
    nfiles: Seq<(Seq<char>, Seq<char>)>,
    i: int,
)
    requires
        0 <= i < change_list(old, nfiles).len(),
    ensures
        exists|j: int|
            0 <= j < nfiles.len() && change_list(old, nfiles)[i] == (#[trigger] nfiles[j]).0,
    decreases nfiles.len(),
{
    if i < change_list(old, nfiles.drop_last()).len() {
        lemma_change_list_member(old, nfiles.drop_last(), i);
        let j = choose|j: int|
            0 <= j < nfiles.drop_last().len() && change_list(old, nfiles.drop_last())[i] == (
            #[trigger] nfiles.drop_last()[j]).0;
        assert(nfiles[j] == nfiles.drop_last()[j]);
    } else {
        assert(change_list(old, nfiles)[i] == nfiles[nfiles.len() - 1].0);
    }
}

impl Diff {
    /// Compares two snapshots. Every path of the new snapshot missing from
    /// the old one is an addition; every path present in both with a
    /// differing digest is a change; every path of the old snapshot missing
    /// from the new one is a deletion. Versions are copied verbatim. The
    /// function is total: identical snapshots give three empty lists.
    #[verifier::loop_isolation(false)]
    pub fn from_states(old: &State, new: &State) -> (d: Diff)
        requires
            old.wf(),
            new.wf(),
        ensures
            d@.old_version == old.version@,
            d@.new_version == new.version@,
            is_diff_of(d@, old.files_map(), new.files_map()),
            nodup(d@.add),
            nodup(d@.change),
            nodup(d@.delete),
            d@.add == add_list(old.files_map(), new.files.deep_view()),
            d@.change == change_list(old.files_map(), new.files.deep_view()),
            d@.delete == delete_list(new.files_map(), old.files.deep_view()),
    {
        let ghost a = old.files_map();
        let ghost b = new.files_map();
        let ghost ndv = new.files.deep_view();
        let ghost odv = old.files.deep_view();
        let mut add: Vec<String> = Vec::new();
        let mut change: Vec<String> = Vec::new();
        let mut delete: Vec<String> = Vec::new();
        proof {
            assert(ndv.take(0) =~= Seq::<(Seq<char>, Seq<char>)>::empty());
            assert(odv.take(0) =~= Seq::<(Seq<char>, Seq<char>)>::empty());
        }
        let mut i: usize = 0;
        while i < new.files.len()
            invariant
                i <= new.files@.len(),
                old.wf(),
                new.wf(),
                a == old.files_map(),
                b == new.files_map(),
                ndv == new.files.deep_view(),
                ndv.len() == new.files@.len(),
                forall|j: int|
                    0 <= j < ndv.len() ==> #[trigger] ndv[j] == (
                        new.files@[j].0@,
                        new.files@[j].1@,
                    ),
                forall|p: Seq<char>|
                    #![trigger add.deep_view().contains(p)]
                    add.deep_view().contains(p) <==> (exists|j: int|
                        0 <= j < i && (#[trigger] ndv[j]).0 == p) && !a.contains_key(p),
                forall|p: Seq<char>|
                    #![trigger change.deep_view().contains(p)]
                    change.deep_view().contains(p) <==> (exists|j: int|
                        0 <= j < i && (#[trigger] ndv[j]).0 == p) && a.contains_key(p)
                        && b.contains_key(p) && a[p] != b[p],
                nodup(add.deep_view()),
                nodup(change.deep_view()),
                forall|j: int|
                    0 <= j < add@.len() ==> #[trigger] add.deep_view()[j] == add@[j]@,
                forall|j: int|
                    0 <= j < change@.len() ==> #[trigger] change.deep_view()[j] == change@[j]@,
                add.deep_view() == add_list(a, ndv.take(i as int)),
                change.deep_view() == change_list(a, ndv.take(i as int)),
            decreases new.files@.len() - i,
        {
            let ghost adv = add.deep_view();
            let ghost cdv = change.deep_view();
            let path: &String = &new.files[i].0;
            proof {
                lemma_assoc_at(ndv, i as int);
                assert(b.contains_key(path@) && b[path@] == ndv[i as int].1);
            }
            match assoc_find(&old.files, path) {
                Some(j) => {
                    if !(old.files[j].1 == new.files[i].1) {
                        proof {
                            assert forall|x: int| 0 <= x < cdv.len() implies #[trigger] cdv[x]
                                != path@ by {
                                assert(cdv.contains(cdv[x]));
                                let jj = choose|jj: int| 0 <= jj < i && (#[trigger] ndv[jj]).0
                                    == cdv[x];
                                assert(new.files@[jj].0@ != new.files@[i as int].0@);
                            }
                        }
                        change.push(path.clone());
                        proof {
                            assert(change.deep_view() =~= cdv.push(path@));
                            lemma_push_effect(cdv, path@);
                            assert(ndv.take(i + 1).drop_last() =~= ndv.take(i as int));
                            assert(ndv.take(i + 1).last() == ndv[i as int]);
                            assert(a.contains_key(path@) && a[path@] != ndv[i as int].1);
                            assert(change.deep_view() =~= change_list(a, ndv.take(i as int))
                                + seq![path@]);
                            assert(change.deep_view() == change_list(a, ndv.take(i + 1)));
                            assert(add.deep_view() == add_list(a, ndv.take(i + 1)));
                        }
                    } else {
                        proof {
                            assert(ndv.take(i + 1).drop_last() =~= ndv.take(i as int));
                            assert(ndv.take(i + 1).last() == ndv[i as int]);
                            assert(a.contains_key(path@) && a[path@] == ndv[i as int].1);
                            assert(change.deep_view() == change_list(a, ndv.take(i + 1)));
                            assert(add.deep_view() == add_list(a, ndv.take(i + 1)));
                        }
                    }
                },
                None => {
                    proof {
                        lemma_assoc_none(odv, path@);
                        assert forall|x: int| 0 <= x < adv.len() implies #[trigger] adv[x]
                            != path@ by {
                            assert(adv.contains(adv[x]));
                            let jj = choose|jj: int| 0 <= jj < i && (#[trigger] ndv[jj]).0
                                == adv[x];
                            assert(new.files@[jj].0@ != new.files@[i as int].0@);
                        }
                    }
                    add.push(path.clone());
                    proof {
                        assert(add.deep_view() =~= adv.push(path@));
                        lemma_push_effect(adv, path@);
                        assert(ndv.take(i + 1).drop_last() =~= ndv.take(i as int));
                        assert(ndv.take(i + 1).last() == ndv[i as int]);
                        assert(!a.contains_key(path@));
                        assert(add.deep_view() =~= add_list(a, ndv.take(i as int)) + seq![path@]);
                        assert(add.deep_view() == add_list(a, ndv.take(i + 1)));
                        assert(change.deep_view() == change_list(a, ndv.take(i + 1)));
                    }
                },
            }
            i = i + 1;
        }
        let mut k: usize = 0;
        while k < old.files.len()
            invariant
                k <= old.files@.len(),
                old.wf(),
                new.wf(),
                a == old.files_map(),
                b == new.files_map(),
                odv == old.files.deep_view(),
                odv.len() == old.files@.len(),
                forall|j: int|
                    0 <= j < odv.len() ==> #[trigger] odv[j] == (
                        old.files@[j].0@,
                        old.files@[j].1@,
                    ),
                forall|p: Seq<char>|
                    #![trigger delete.deep_view().contains(p)]
                    delete.deep_view().contains(p) <==> (exists|j: int|
                        0 <= j < k && (#[trigger] odv[j]).0 == p) && !b.contains_key(p),
                nodup(delete.deep_view()),
                forall|j: int|
                    0 <= j < delete@.len() ==> #[trigger] delete.deep_view()[j] == delete@[j]@,
                delete.deep_view() == delete_list(b, odv.take(k as int)),
            decreases old.files@.len() - k,
        {
            let ghost ddv = delete.deep_view();
            let path: &String = &old.files[k].0;
            proof {
                lemma_assoc_at(odv, k as int);
            }
            if assoc_find(&new.files, path).is_none() {
                proof {
                    assert forall|x: int| 0 <= x < ddv.len() implies #[trigger] ddv[x] != path@ by {
                        assert(ddv.contains(ddv[x]));
                        let jj = choose|jj: int| 0 <= jj < k && (#[trigger] odv[jj]).0 == ddv[x];
                        assert(old.files@[jj].0@ != old.files@[k as int].0@);
                    }
                }
                delete.push(path.clone());
                proof {
                    assert(delete.deep_view() =~= ddv.push(path@));
                    lemma_push_effect(ddv, path@);
                    assert(odv.take(k + 1).drop_last() =~= odv.take(k as int));
                    assert(odv.take(k + 1).last() == odv[k as int]);
                    assert(!b.contains_key(path@));
                    assert(delete.deep_view() =~= delete_list(b, odv.take(k as int))
                        + seq![path@]);
                    assert(delete.deep_view() == delete_list(b, odv.take(k + 1)));
                }
            } else {
                proof {
                    assert(odv.take(k + 1).drop_last() =~= odv.take(k as int));
                    assert(odv.take(k + 1).last() == odv[k as int]);
                    assert(b.contains_key(path@));
                    assert(delete.deep_view() == delete_list(b, odv.take(k + 1)));
                }
            }
            k = k + 1;
        }
        proof {
            assert(ndv.take(ndv.len() as int) =~= ndv);
            assert(odv.take(odv.len() as int) =~= odv);
            assert forall|p: Seq<char>| b.contains_key(p) implies (exists|j: int|
                0 <= j < ndv.len() && (#[trigger] ndv[j]).0 == p) by {
                lemma_map_key_has_index(ndv, p);
            }
            assert forall|p: Seq<char>| a.contains_key(p) implies (exists|j: int|
                0 <= j < odv.len() && (#[trigger] odv[j]).0 == p) by {
                lemma_map_key_has_index(odv, p);
            }
            assert forall|j: int| 0 <= j < ndv.len() implies b.contains_key(
                (#[trigger] ndv[j]).0,
            ) by {
                lemma_assoc_at(ndv, j);
            }
            assert forall|j: int| 0 <= j < odv.len() implies a.contains_key(
                (#[trigger] odv[j]).0,
            ) by {
                lemma_assoc_at(odv, j);
            }
        }
        Diff {
            old_version: old.version.clone(),
            new_version: new.version.clone(),
            add,
            change,
            delete,
        }
    }
}

/// Comparing a snapshot against itself classifies nothing: any diff that
/// classifies a mapping against itself has three empty lists.
pub proof fn lemma_diff_identity(d: DiffView, m: Map<Seq<char>, Seq<char>>)
    requires
        is_diff_of(d, m, m),
    ensures
        d.add.len() == 0,
        d.change.len() == 0,
        d.delete.len() == 0,
{
    if d.add.len() > 0 {
        assert(d.add.contains(d.add[0]));
    }
    if d.change.len() > 0 {
        assert(d.change.contains(d.change[0]));
    }
    if d.delete.len() > 0 {
        assert(d.delete.contains(d.delete[0]));
    }
}

/// A path an ignore rule matches, other than the marker file, appears in no
/// snapshot scanned under rules that match it, and so in none of the three
/// lists of a diff between two such snapshots.
pub proof fn lemma_ignored_invisible(
    ig_a: Seq<Seq<char>>,
    ig_b: Seq<Seq<char>>,
    ca: Map<Seq<char>, Seq<u8>>,
    cb: Map<Seq<char>, Seq<u8>>,
    d: DiffView,
    p: Seq<char>,
)
    requires
        path_ignored(ig_a, p),
        path_ignored(ig_b, p),
        p != marker_name(),
        is_diff_of(d, spec_scan(ig_a, ca), spec_scan(ig_b, cb)),
    ensures
        !spec_scan(ig_a, ca).contains_key(p),
        !spec_scan(ig_b, cb).contains_key(p),
        !d.add.contains(p),
        !d.change.contains(p),
        !d.delete.contains(p),
{
}

/// The marker file of a directory is always scanned, whatever the ignore
/// rules say.
pub proof fn lemma_marker_always_tracked(ig: Seq<Seq<char>>, c: Map<Seq<char>, Seq<u8>>)
    requires
        c.contains_key(marker_name()),
    ensures
        spec_scan(ig, c).contains_key(marker_name()),
{
}

/// Pushing extends a sequence's membership by exactly the pushed element.
proof fn lemma_push_effect(s: Seq<Seq<char>>, e: Seq<char>)
    ensures
        forall|p: Seq<char>| #![trigger s.push(e).contains(p)] s.push(e).contains(p) <==> (
        s.contains(p) || p == e),
{
    assert forall|p: Seq<char>| #[trigger] s.push(e).contains(p) implies (s.contains(p) || p == e) by {
        let idx = choose|idx: int| 0 <= idx < s.push(e).len() && s.push(e)[idx] == p;
        if idx < s.len() {
            assert(s[idx] == p);
        }
    }
    assert forall|p: Seq<char>| (s.contains(p) || p == e) implies #[trigger] s.push(e).contains(
        p,
    ) by {
        if p == e {
            assert(s.push(e)[s.len() as int] == e);
        } else {
            let idx = choose|idx: int| 0 <= idx < s.len() && s[idx] == p;
            assert(s.push(e)[idx] == p);
        }
    }
}

/// Every key the mapping of a pair sequence holds names some pair's index.
proof fn lemma_map_key_has_index<V>(s: Seq<(Seq<char>, V)>, p: Seq<char>)
    requires
        map_of(s).contains_key(p),
    ensures
        exists|j: int| 0 <= j < s.len() && (#[trigger] s[j]).0 == p,
    decreases s.len(),
{
    if s.len() > 0 {
        if s[0].0 == p {
        } else {
            lemma_map_key_has_index(s.drop_first(), p);
            let j = choose|j: int| 0 <= j < s.drop_first().len() && (#[trigger] s.drop_first()[j]).0
                == p;
            assert(s[j + 1].0 == p);
        }
    }
}

} // verus!
