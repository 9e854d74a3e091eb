use vstd::prelude::*;

verus! {

/// Index of the greatest value of `fv`, the earliest index winning ties.
pub open spec fn first_max_index(fv: Seq<i64>) -> int
    decreases fv.len(),
{
    if fv.len() <= 1 {
        0
    } else {
        let r = first_max_index(fv.drop_last());
        if fv.last() > fv[r] {
            fv.len() - 1
        } else {
            r
        }
    }
}

/// `i` points at a greatest value of `fv` and no earlier index does.
pub open spec fn is_first_max(fv: Seq<i64>, i: int) -> bool {
    &&& 0 <= i < fv.len()
    &&& forall|j: int| 0 <= j < fv.len() ==> fv[j] <= fv[i]
    &&& forall|j: int| 0 <= j < i ==> fv[j] < fv[i]
}

/// `first_max_index` indeed picks a greatest value, at its earliest position.
pub proof fn lemma_first_max_index_is_first_max(fv: Seq<i64>)
    requires
        fv.len() > 0,
    ensures
        is_first_max(fv, first_max_index(fv)),
    decreases fv.len(),
{
    if fv.len() > 1 {
        let s = fv.drop_last();
        lemma_first_max_index_is_first_max(s);
        assert(forall|j: int| 0 <= j < s.len() ==> s[j] == fv[j]);
    }
}

/// Only one index can be a first maximum.
pub proof fn lemma_first_max_unique(fv: Seq<i64>, i: int, j: int)
    requires
        is_first_max(fv, i),
        is_first_max(fv, j),
    ensures
        i == j,
{
    if i < j {
        assert(fv[i] < fv[j]);
        assert(fv[j] <= fv[i]);
    }
    if j < i {
        assert(fv[j] < fv[i]);
        assert(fv[i] <= fv[j]);
    }
}

/// Elitist truncation selection as a mathematical function: given the agents
/// `s` and their fitness values `fv` (one per agent, same positions), take
/// out the first maximum `n` times over, in that order.
pub open spec fn select_seq<T>(s: Seq<T>, fv: Seq<i64>, n: nat) -> Seq<T>
    decreases n,
{
    if n == 0 {
        Seq::empty()
    } else {
        let i = first_max_index(fv);
        Seq::empty().push(s[i]) + select_seq(s.remove(i), fv.remove(i), (n - 1) as nat)
    }
}

/// Truncation selection returns exactly `n` agents when the pool has at
/// least `n` of them.
pub proof fn lemma_select_seq_len<T>(s: Seq<T>, fv: Seq<i64>, n: nat)
    requires
        fv.len() == s.len(),
        n <= s.len(),
    ensures
        select_seq(s, fv, n).len() == n,
    decreases n,
{
    if n > 0 {
        let i = first_max_index(fv);
        lemma_first_max_index_is_first_max(fv);
        lemma_select_seq_len(s.remove(i), fv.remove(i), (n - 1) as nat);
    }
}

/// Truncation selection only hands back agents of the pool: every position
/// of the result holds some agent of `s`.
pub proof fn lemma_select_seq_elements<T>(s: Seq<T>, fv: Seq<i64>, n: nat)
    requires
        fv.len() == s.len(),
        n <= s.len(),
    ensures
        forall|k: int|
            #![trigger select_seq(s, fv, n)[k]]
            0 <= k < select_seq(s, fv, n).len() ==> exists|i: int|
                0 <= i < s.len() && select_seq(s, fv, n)[k] == #[trigger] s[i],
    decreases n,
{
    if n > 0 {
        let b = first_max_index(fv);
        lemma_first_max_index_is_first_max(fv);
        let s1 = s.remove(b);
        let f1 = fv.remove(b);
        lemma_select_seq_len(s, fv, n);
        lemma_select_seq_len(s1, f1, (n - 1) as nat);
        lemma_select_seq_elements(s1, f1, (n - 1) as nat);
        assert(select_seq(s, fv, n) == Seq::empty().push(s[b]) + select_seq(s1, f1, (n - 1) as nat));
        assert forall|k: int|
            #![trigger select_seq(s, fv, n)[k]]
            0 <= k < select_seq(s, fv, n).len() implies exists|i: int|
            0 <= i < s.len() && select_seq(s, fv, n)[k] == #[trigger] s[i] by {
            if k == 0 {
                assert(select_seq(s, fv, n)[0] == s[b]);
            } else {
                assert(select_seq(s, fv, n)[k] == select_seq(s1, f1, (n - 1) as nat)[k - 1]);
                let i1 = choose|i: int|
                    0 <= i < s1.len() && select_seq(s1, f1, (n - 1) as nat)[k - 1] == s1[i];
                if i1 < b {
                    assert(s1[i1] == s[i1]);
                } else {
                    assert(s1[i1] == s[i1 + 1]);
                }
            }
        }
    }
}

} // verus!
