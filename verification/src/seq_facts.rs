//! Counting facts about duplicate-free sequences of indices below a bound.
use vstd::prelude::*;
use vstd::set_lib::*;

verus! {

/// The indices below `n`.
pub open spec fn indices_below(n: nat) -> Set<u32> {
    Set::new(|x: u32| x < n)
}

/// There are exactly `n` indices below `n` (when `n` fits the index type).
pub proof fn lemma_indices_below(n: nat)
    requires
        n <= u32::MAX + 1,
    ensures
        indices_below(n).finite(),
        indices_below(n).len() == n,
    decreases n,
{
    if n == 0 {
        assert(indices_below(0) =~= Set::<u32>::empty());
    } else {
        lemma_indices_below((n - 1) as nat);
        assert(indices_below((n - 1) as nat).insert((n - 1) as u32) =~= indices_below(n));
    }
}

/// A duplicate-free sequence of indices below `n` has at most `n` entries,
/// exactly `n` when it holds every index below `n`, and holds every index
/// below `n` when it has `n` entries.
pub proof fn lemma_index_seq_count(s: Seq<u32>, n: nat)
    requires
        n <= u32::MAX + 1,
        s.no_duplicates(),
        forall|i: int| 0 <= i < s.len() ==> #[trigger] s[i] < n,
    ensures
        s.len() <= n,
        s.len() == n ==> forall|v: u32| v < n ==> s.contains(v),
        (forall|v: u32| v < n ==> s.contains(v)) ==> s.len() == n,
{
    lemma_indices_below(n);
    s.unique_seq_to_set();
    assert(s.to_set().subset_of(indices_below(n))) by {
        assert forall|x: u32| s.to_set().contains(x) implies indices_below(n).contains(x) by {
            let i = choose|i: int| 0 <= i < s.len() && s[i] == x;
        }
    }
    lemma_len_subset(s.to_set(), indices_below(n));
    if s.len() == n {
        lemma_subset_equality(s.to_set(), indices_below(n));
        assert forall|v: u32| v < n implies s.contains(v) by {
            assert(indices_below(n).contains(v));
            assert(s.to_set().contains(v));
        }
    }
    if forall|v: u32| v < n ==> s.contains(v) {
        assert(s.to_set() =~= indices_below(n)) by {
            assert forall|v: u32| indices_below(n).contains(v) implies s.to_set().contains(v) by {
                assert(s.contains(v));
            }
        }
    }
}

} // verus!
