//! Counting arguments about sequences of distinct indices.

use vstd::prelude::*;
use vstd::seq_lib::seq_to_set_is_finite;
use vstd::set_lib::{lemma_int_range, lemma_len_subset, lemma_subset_equality, set_int_range};

verus! {

/// Whether `s` lists indices below `n`, none of them twice.
pub open spec fn distinct_below(s: Seq<int>, n: int) -> bool {
    &&& s.no_duplicates()
    &&& forall|j: int| 0 <= j < s.len() ==> 0 <= #[trigger] s[j] < n
}

/// Whether `s` lists every index below its own length exactly once.
pub open spec fn is_permutation(s: Seq<int>) -> bool {
    distinct_below(s, s.len() as int)
}

/// Distinct indices below `n` that leave one index out are fewer than `n`.
pub proof fn distinct_below_with_gap(s: Seq<int>, n: int, gap: int)
    requires
        distinct_below(s, n),
        0 <= gap < n,
        !s.contains(gap),
    ensures
        s.len() < n,
{
    s.unique_seq_to_set();
    seq_to_set_is_finite(s);
    lemma_int_range(0, n);
    let rest = set_int_range(0, n).remove(gap);
    assert(s.to_set().subset_of(rest)) by {
        assert forall|x: int| s.to_set().contains(x) implies rest.contains(x) by {
            let j = choose|j: int| 0 <= j < s.len() && s[j] == x;
            assert(0 <= s[j] < n);
        }
    }
    lemma_len_subset(s.to_set(), rest);
}

/// Distinct indices below `n` are at most `n`.
pub proof fn distinct_below_is_short(s: Seq<int>, n: int)
    requires
        distinct_below(s, n),
        0 <= n,
    ensures
        s.len() <= n,
{
    s.unique_seq_to_set();
    seq_to_set_is_finite(s);
    lemma_int_range(0, n);
    assert(s.to_set().subset_of(set_int_range(0, n))) by {
        assert forall|x: int| s.to_set().contains(x) implies set_int_range(0, n).contains(x) by {
            let j = choose|j: int| 0 <= j < s.len() && s[j] == x;
            assert(0 <= s[j] < n);
        }
    }
    lemma_len_subset(s.to_set(), set_int_range(0, n));
}

/// A permutation reaches every index below its length.
pub proof fn permutation_is_onto(s: Seq<int>, i: int)
    requires
        is_permutation(s),
        0 <= i < s.len(),
    ensures
        s.contains(i),
{
    let n = s.len() as int;
    s.unique_seq_to_set();
    seq_to_set_is_finite(s);
    lemma_int_range(0, n);
    assert(s.to_set().subset_of(set_int_range(0, n))) by {
        assert forall|x: int| s.to_set().contains(x) implies set_int_range(0, n).contains(x) by {
            let j = choose|j: int| 0 <= j < s.len() && s[j] == x;
            assert(0 <= s[j] < n);
        }
    }
    lemma_subset_equality(s.to_set(), set_int_range(0, n));
    assert(set_int_range(0, n).contains(i));
    assert(s.to_set().contains(i));
}

} // verus!
