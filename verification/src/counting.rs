//! Counting occurrences of a value in a sequence, with the lemmas the
//! engine's score bookkeeping rests on.

use vstd::prelude::*;

verus! {

/// Number of occurrences of `x` in `s`.
pub open spec fn count<A>(s: Seq<A>, x: A) -> nat
    decreases s.len(),
{
    if s.len() == 0 {
        0
    } else {
        count(s.drop_last(), x) + (if s.last() == x {
            1nat
        } else {
            0nat
        })
    }
}

/// A value occurs at most as often as the sequence is long.
pub proof fn lemma_count_le_len<A>(s: Seq<A>, x: A)
    ensures
        count(s, x) <= s.len(),
    decreases s.len(),
{
    if s.len() > 0 {
        lemma_count_le_len(s.drop_last(), x);
    }
}

/// Appending one element raises the count of exactly that element's value.
pub proof fn lemma_count_push<A>(s: Seq<A>, v: A, x: A)
    ensures
        count(s.push(v), x) == count(s, x) + (if v == x {
            1nat
        } else {
            0nat
        }),
{
    assert(s.push(v).drop_last() =~= s);
    assert(s.push(v).last() == v);
}

/// Overwriting one position trades the old value's occurrence for the new one's.
pub proof fn lemma_count_update<A>(s: Seq<A>, i: int, v: A, x: A)
    requires
        0 <= i < s.len(),
    ensures
        count(s.update(i, v), x) + (if s[i] == x {
            1nat
        } else {
            0nat
        }) == count(s, x) + (if v == x {
            1nat
        } else {
            0nat
        }),
    decreases s.len(),
{
    let su = s.update(i, v);
    assert(su.len() == s.len());
    if i == s.len() - 1 {
        assert(su.drop_last() =~= s.drop_last());
        assert(su.last() == v);
    } else {
        assert(su.drop_last() =~= s.drop_last().update(i, v));
        assert(su.last() == s.last());
        lemma_count_update(s.drop_last(), i, v, x);
        assert(s.drop_last()[i] == s[i]);
    }
}

/// A value is absent exactly when its count is zero.
pub proof fn lemma_count_zero<A>(s: Seq<A>, x: A)
    ensures
        (count(s, x) == 0) <==> (forall|i: int| 0 <= i < s.len() ==> s[i] != x),
    decreases s.len(),
{
    if s.len() > 0 {
        lemma_count_zero(s.drop_last(), x);
        assert(forall|i: int| 0 <= i < s.len() - 1 ==> s.drop_last()[i] == s[i]);
        assert(s.last() == s[s.len() - 1]);
    }
}

/// The count over a prefix one longer takes in exactly the next element.
pub proof fn lemma_count_prefix_step<A>(s: Seq<A>, i: int, x: A)
    requires
        0 <= i < s.len(),
    ensures
        count(s.subrange(0, i + 1), x) == count(s.subrange(0, i), x) + (if s[i] == x {
            1nat
        } else {
            0nat
        }),
{
    assert(s.subrange(0, i + 1).drop_last() =~= s.subrange(0, i));
    assert(s.subrange(0, i + 1).last() == s[i]);
}

} // verus!
