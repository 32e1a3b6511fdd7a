//! Small facts about sequence concatenation shared by the codecs.

use vstd::prelude::*;

verus! {

/// Extracting from a concatenation: the suffix is a subrange, and every
/// subrange that lies inside the prefix is a subrange of the prefix.
pub proof fn lemma_concat_extract<T>(a: Seq<T>, b: Seq<T>)
    ensures
        (a + b).subrange(a.len() as int, (a + b).len() as int) =~= b,
        forall|p: int, q: int|
            0 <= p <= q <= a.len() ==> #[trigger] (a + b).subrange(p, q) =~= a.subrange(p, q),
{
    assert forall|p: int, q: int| 0 <= p <= q <= a.len() implies #[trigger] (a + b).subrange(p, q)
        =~= a.subrange(p, q) by {}
}

} // verus!
