//! What a walk over the keys of a map has visited.

use vstd::prelude::*;

verus! {

/// After `j` steps of a walk over `s`, the items visited are those of the
/// first `j - 1` steps and the `j`-th item; after the last step, all of `s`.
pub broadcast proof fn lemma_walked_prefix<K>(s: Seq<&K>, j: int)
    requires
        1 <= j <= s.len(),
    ensures
        #[trigger] s.take(j).unref().to_set() == s.take(j - 1).unref().to_set().insert(*s[j - 1]),
        j == s.len() ==> s.take(j).unref().to_set() == s.unref().to_set(),
{
    assert(s.take(j) =~= s.take(j - 1).push(s[j - 1]));
    assert(s.take(j).unref() =~= s.take(j - 1).unref().push(*s[j - 1]));
    s.take(j - 1).unref().lemma_push_to_set_commute(*s[j - 1]);
    if j == s.len() {
        assert(s.take(j) =~= s);
    }
}

} // verus!
