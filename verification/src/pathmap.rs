//! A sequence of key/value pairs read as a mapping.
//!
//! Snapshots keep their file table as a vector of `(path, value)` pairs in
//! scan-encounter order; this module gives that vector its mathematical
//! reading as a `Map` and the lemmas the engine needs about it. Lookup takes
//! the first matching pair from the front.

use vstd::prelude::*;

verus! {

/// The value stored under `k`, taking the first match from the front.
pub open spec fn assoc_get<V>(s: Seq<(Seq<char>, V)>, k: Seq<char>) -> Option<V>
    decreases s.len(),
{
    if s.len() == 0 {
        None
    } else if s[0].0 == k {
        Some(s[0].1)
    } else {
        assoc_get(s.drop_first(), k)
    }
}

/// Whether some pair carries the key `k`.
pub open spec fn assoc_has<V>(s: Seq<(Seq<char>, V)>, k: Seq<char>) -> bool {
    assoc_get(s, k) is Some
}

/// The mapping a pair sequence denotes.
pub open spec fn map_of<V>(s: Seq<(Seq<char>, V)>) -> Map<Seq<char>, V> {
    Map::new(|k: Seq<char>| assoc_has(s, k), |k: Seq<char>| assoc_get(s, k)->0)
}

/// If none of the first `i` pairs carries `k`, lookup may start at pair `i`.
pub proof fn lemma_assoc_get_skip<V>(s: Seq<(Seq<char>, V)>, k: Seq<char>, i: int)
    requires
        0 <= i <= s.len(),
        forall|j: int| 0 <= j < i ==> s[j].0 != k,
    ensures
        assoc_get(s, k) == assoc_get(s.skip(i), k),
    decreases i,
{
    if i > 0 {
        assert(s[0].0 != k);
        lemma_assoc_get_skip(s.drop_first(), k, i - 1);
        assert(s.drop_first().skip(i - 1) =~= s.skip(i));
    } else {
        assert(s.skip(0) =~= s);
    }
}

/// Appending a pair only fills in a key that was absent before.
pub proof fn lemma_assoc_get_push<V>(s: Seq<(Seq<char>, V)>, p: (Seq<char>, V), k: Seq<char>)
    ensures
        assoc_get(s.push(p), k) == (if assoc_has(s, k) {
            assoc_get(s, k)
        } else if p.0 == k {
            Some(p.1)
        } else {
            None::<V>
        }),
    decreases s.len(),
{
    if s.len() == 0 {
        assert(s.push(p)[0] == p);
        if p.0 != k {
            assert(s.push(p).drop_first() =~= Seq::<(Seq<char>, V)>::empty());
        }
    } else {
        assert(s.push(p)[0] == s[0]);
        if s[0].0 != k {
            assert(s.push(p).drop_first() =~= s.drop_first().push(p));
            lemma_assoc_get_push(s.drop_first(), p, k);
        }
    }
}

/// With pairwise-distinct keys, lookup of the `j`th key yields the `j`th value.
pub proof fn lemma_assoc_at<V>(s: Seq<(Seq<char>, V)>, j: int)
    requires
        0 <= j < s.len(),
        forall|a: int, b: int| 0 <= a < b < s.len() ==> (#[trigger] s[a]).0 != (#[trigger] s[b]).0,
    ensures
        assoc_get(s, s[j].0) == Some(s[j].1),
    decreases j,
{
    if j == 0 {
    } else {
        assert forall|a: int, b: int|
            0 <= a < b < s.drop_first().len() implies (#[trigger] s.drop_first()[a]).0 != (
        #[trigger] s.drop_first()[b]).0 by {
            assert(s.drop_first()[a] == s[a + 1]);
            assert(s.drop_first()[b] == s[b + 1]);
        }
        lemma_assoc_at(s.drop_first(), j - 1);
        assert(s.drop_first()[j - 1] == s[j]);
        assert(s[0].0 != s[j].0);
    }
}

/// A key that lookup misses occurs in no pair at all.
pub proof fn lemma_assoc_none<V>(s: Seq<(Seq<char>, V)>, k: Seq<char>)
    requires
        !assoc_has(s, k),
    ensures
        forall|i: int| 0 <= i < s.len() ==> (#[trigger] s[i]).0 != k,
    decreases s.len(),
{
    if s.len() > 0 {
        lemma_assoc_none(s.drop_first(), k);
        assert forall|i: int| 0 <= i < s.len() implies (#[trigger] s[i]).0 != k by {
            if i > 0 {
                assert(s.drop_first()[i - 1] == s[i]);
            }
        }
    }
}

/// Finds the first pair whose key equals `key`.
pub fn assoc_find<V: DeepView>(v: &Vec<(String, V)>, key: &String) -> (r: Option<usize>)
    ensures
        match r {
            Some(i) => {
                &&& i < v@.len()
                &&& v@[i as int].0@ == key@
                &&& assoc_get(v.deep_view(), key@) == Some(v@[i as int].1.deep_view())
            },
            None => !assoc_has(v.deep_view(), key@),
        },
{
    let ghost dv = v.deep_view();
    let mut i: usize = 0;
    while i < v.len()
        invariant
            i <= v@.len(),
            dv == v.deep_view(),
            dv.len() == v@.len(),
            forall|j: int| 0 <= j < dv.len() ==> dv[j] == (v@[j].0@, v@[j].1.deep_view()),
            forall|j: int| 0 <= j < i ==> dv[j].0 != key@,
        decreases v@.len() - i,
    {
        if v[i].0 == *key {
            proof {
                lemma_assoc_get_skip(dv, key@, i as int);
                assert(dv.skip(i as int)[0] == dv[i as int]);
            }
            return Some(i);
        }
        i = i + 1;
    }
    proof {
        lemma_assoc_get_skip(dv, key@, i as int);
        assert(dv.skip(i as int).len() == 0);
    }
    None
}

} // verus!
