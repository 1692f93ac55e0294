//! Stable sorting by insertion: the order a stable sort gives, as a
//! definition that the library's sorts are proved against.
use vstd::prelude::*;

verus! {

/// `t` with `x` placed just before the first element that `x` precedes
/// under `lt` (at the end when there is none).
pub open spec fn insert_before_greater<T>(t: Seq<T>, x: T, lt: spec_fn(T, T) -> bool) -> Seq<T>
    decreases t.len(),
{
    if t.len() == 0 {
        seq![x]
    } else if lt(x, t[0]) {
        seq![x] + t
    } else {
        seq![t[0]] + insert_before_greater(t.drop_first(), x, lt)
    }
}

/// `s` sorted by `lt`, elements that `lt` does not tell apart keeping the
/// order in which they came.
pub open spec fn stable_sort<T>(s: Seq<T>, lt: spec_fn(T, T) -> bool) -> Seq<T>
    decreases s.len(),
{
    if s.len() == 0 {
        Seq::empty()
    } else {
        insert_before_greater(stable_sort(s.drop_last(), lt), s.last(), lt)
    }
}

/// Placing `x` before the first element it precedes is inserting it at that index.
pub proof fn lemma_insert_before_greater<T>(t: Seq<T>, x: T, lt: spec_fn(T, T) -> bool, p: int)
    requires
        0 <= p <= t.len(),
        forall|k: int| 0 <= k < p ==> !lt(x, #[trigger] t[k]),
        p == t.len() || lt(x, t[p]),
    ensures
        insert_before_greater(t, x, lt) == t.insert(p, x),
    decreases p,
{
    if p == 0 {
        if t.len() == 0 {
            assert(t.insert(0, x) =~= seq![x]);
        } else {
            assert(t.insert(0, x) =~= seq![x] + t);
        }
    } else {
        let u = t.drop_first();
        assert forall|k: int| 0 <= k < p - 1 implies !lt(x, #[trigger] u[k]) by {
            assert(u[k] == t[k + 1]);
        }
        assert(!lt(x, t[0]));
        if p < t.len() {
            assert(u[p - 1] == t[p]);
        }
        lemma_insert_before_greater(u, x, lt, p - 1);
        assert(t.insert(p, x) =~= seq![t[0]] + u.insert(p - 1, x));
    }
}

/// One more element sorts in by being placed before the first element it precedes.
pub proof fn lemma_stable_sort_step<T>(s: Seq<T>, n: int, lt: spec_fn(T, T) -> bool)
    requires
        0 <= n < s.len(),
    ensures
        stable_sort(s.take(n + 1), lt) == insert_before_greater(stable_sort(s.take(n), lt), s[n], lt),
{
    assert(s.take(n + 1).drop_last() =~= s.take(n));
}

} // verus!
