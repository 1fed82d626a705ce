//! A small library for tallying how many elements of a sequence satisfy a
//! predicate, with the lemmas the board proofs need: how the tally moves
//! under a point update, and how it behaves when two sequences agree on
//! the predicate.

use vstd::prelude::*;

verus! {

/// The number of elements of `s` on which `f` holds.
pub open spec fn count_matching<T>(s: Seq<T>, f: spec_fn(T) -> bool) -> int
    decreases s.len(),
{
    if s.len() == 0 {
        0
    } else {
        count_matching(s.drop_last(), f) + if f(s.last()) {
            1int
        } else {
            0int
        }
    }
}

pub proof fn lemma_count_matching_bounds<T>(s: Seq<T>, f: spec_fn(T) -> bool)
    ensures
        0 <= count_matching(s, f) <= s.len(),
    decreases s.len(),
{
    if s.len() > 0 {
        lemma_count_matching_bounds(s.drop_last(), f);
    }
}

/// The tally is zero exactly when no element satisfies the predicate.
pub proof fn lemma_count_matching_zero<T>(s: Seq<T>, f: spec_fn(T) -> bool)
    ensures
        count_matching(s, f) == 0 <==> (forall|i: int| 0 <= i < s.len() ==> !f(s[i])),
    decreases s.len(),
{
    if s.len() > 0 {
        lemma_count_matching_zero(s.drop_last(), f);
        lemma_count_matching_bounds(s.drop_last(), f);
        assert(forall|i: int| 0 <= i < s.len() - 1 ==> s.drop_last()[i] == s[i]);
        if count_matching(s, f) == 0 {
            assert(forall|i: int| 0 <= i < s.len() - 1 ==> !f(s[i]));
            assert(!f(s[s.len() - 1]));
        }
    }
}

/// Updating position `i` moves the tally by the difference of the
/// indicator values at `i`.
pub proof fn lemma_count_matching_update<T>(s: Seq<T>, f: spec_fn(T) -> bool, i: int, v: T)
    requires
        0 <= i < s.len(),
    ensures
        count_matching(s.update(i, v), f) == count_matching(s, f) - (if f(s[i]) {
            1int
        } else {
            0int
        }) + (if f(v) {
            1int
        } else {
            0int
        }),
    decreases s.len(),
{
    let t = s.update(i, v);
    assert(t.len() == s.len());
    if i == s.len() - 1 {
        assert(t.drop_last() =~= s.drop_last());
        assert(t.last() == v);
    } else {
        assert(t.drop_last() =~= s.drop_last().update(i, v));
        assert(t.last() == s.last());
        lemma_count_matching_update(s.drop_last(), f, i, v);
    }
}

/// Two sequences of the same length on which the predicate agrees
/// pointwise have the same tally.
pub proof fn lemma_count_matching_agree<T>(s: Seq<T>, t: Seq<T>, f: spec_fn(T) -> bool)
    requires
        s.len() == t.len(),
        forall|i: int| 0 <= i < s.len() ==> f(s[i]) == f(t[i]),
    ensures
        count_matching(s, f) == count_matching(t, f),
    decreases s.len(),
{
    if s.len() > 0 {
        assert(forall|i: int| 0 <= i < s.len() - 1 ==> s.drop_last()[i] == s[i]);
        assert(forall|i: int| 0 <= i < t.len() - 1 ==> t.drop_last()[i] == t[i]);
        lemma_count_matching_agree(s.drop_last(), t.drop_last(), f);
        assert(f(s.last()) == f(t[s.len() - 1]));
    }
}

} // verus!
