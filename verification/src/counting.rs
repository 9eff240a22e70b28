//! Counting the elements of a sequence that satisfy a predicate, with the
//! lemmas the pool's bookkeeping proofs need: how the count changes under
//! `push`, `update` and `remove`.

use vstd::prelude::*;

verus! {

/// Number of elements of `s` satisfying `p`.
pub open spec fn count_matching<T>(s: Seq<T>, p: spec_fn(T) -> bool) -> int
    decreases s.len(),
{
    if s.len() == 0 {
        0
    } else {
        count_matching(s.drop_last(), p) + if p(s.last()) {
            1int
        } else {
            0int
        }
    }
}

/// The count is between 0 and the length of the sequence.
pub proof fn lemma_count_bounds<T>(s: Seq<T>, p: spec_fn(T) -> bool)
    ensures
        0 <= count_matching(s, p) <= s.len(),
    decreases s.len(),
{
    if s.len() > 0 {
        lemma_count_bounds(s.drop_last(), p);
    }
}

/// Removing one element subtracts its contribution from the count.
pub proof fn lemma_count_remove<T>(s: Seq<T>, p: spec_fn(T) -> bool, i: int)
    requires
        0 <= i < s.len(),
    ensures
        count_matching(s.remove(i), p) == count_matching(s, p) - if p(s[i]) {
            1int
        } else {
            0int
        },
    decreases s.len(),
{
    let t = s.remove(i);
    if i == s.len() - 1 {
        assert(t =~= s.drop_last());
    } else {
        assert(t.drop_last() =~= s.drop_last().remove(i));
        assert(t.last() == s.last());
        lemma_count_remove(s.drop_last(), p, i);
    }
}

/// A prefix extended by one element grows the count by that element's
/// contribution; this is the shape loop invariants use while scanning.
pub proof fn lemma_count_take_step<T>(s: Seq<T>, p: spec_fn(T) -> bool, i: int)
    requires
        0 <= i < s.len(),
    ensures
        count_matching(s.take(i + 1), p) == count_matching(s.take(i), p) + if p(s[i]) {
            1int
        } else {
            0int
        },
{
    assert(s.take(i + 1).drop_last() =~= s.take(i));
    assert(s.take(i + 1).last() == s[i]);
}

/// Counting over the whole sequence is counting over the full-length prefix.
pub proof fn lemma_count_take_all<T>(s: Seq<T>, p: spec_fn(T) -> bool)
    ensures
        count_matching(s.take(s.len() as int), p) == count_matching(s, p),
{
    assert(s.take(s.len() as int) =~= s);
}

} // verus!
