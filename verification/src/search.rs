//! Finding the first of several things.

use vstd::prelude::*;

use crate::table::{Key, Table};

verus! {

/// The place of the first item that meets a condition.
pub open spec fn first_index<A>(s: Seq<A>, p: spec_fn(A) -> bool) -> Option<int>
    decreases s.len(),
{
    if s.len() == 0 {
        None
    } else {
        match first_index(s.drop_last(), p) {
            Some(i) => Some(i),
            None => if p(s.last()) {
                Some(s.len() - 1)
            } else {
                None
            },
        }
    }
}

/// An item that meets the condition, behind none that does, is the first.
pub proof fn lemma_first<A>(s: Seq<A>, p: spec_fn(A) -> bool, i: int)
    requires
        0 <= i < s.len(),
        p(s[i]),
        forall|k: int| 0 <= k < i ==> !p(#[trigger] s[k]),
    ensures
        first_index(s, p) == Some(i),
    decreases s.len(),
{
    if i < s.len() - 1 {
        assert(forall|k: int| 0 <= k < s.len() - 1 ==> s.drop_last()[k] == s[k]);
        lemma_first(s.drop_last(), p, i);
    } else {
        assert(forall|k: int| 0 <= k < s.len() - 1 ==> s.drop_last()[k] == s[k]);
        lemma_none(s.drop_last(), p);
    }
}

/// Where no item meets the condition, there is no first.
pub proof fn lemma_none<A>(s: Seq<A>, p: spec_fn(A) -> bool)
    requires
        forall|k: int| 0 <= k < s.len() ==> !p(#[trigger] s[k]),
    ensures
        first_index(s, p) is None,
    decreases s.len(),
{
    if s.len() > 0 {
        assert(forall|k: int| 0 <= k < s.len() - 1 ==> s.drop_last()[k] == s[k]);
        assert(s[s.len() - 1] == s.last());
        lemma_none(s.drop_last(), p);
    }
}

/// The first item meets the condition, and none before it does.
pub proof fn lemma_first_meets<A>(s: Seq<A>, p: spec_fn(A) -> bool)
    ensures
        match first_index(s, p) {
            Some(i) => 0 <= i < s.len() && p(s[i]) && forall|k: int|
                0 <= k < i ==> !p(#[trigger] s[k]),
            None => forall|k: int| 0 <= k < s.len() ==> !p(#[trigger] s[k]),
        },
    decreases s.len(),
{
    if s.len() > 0 {
        lemma_first_meets(s.drop_last(), p);
        assert(forall|k: int| 0 <= k < s.len() - 1 ==> s.drop_last()[k] == s[k]);
        assert(s[s.len() - 1] == s.last());
    }
}

/// Where the same items of two lists meet the condition, the first is at the same place.
pub proof fn lemma_same_first<A>(s: Seq<A>, t: Seq<A>, p: spec_fn(A) -> bool)
    requires
        s.len() == t.len(),
        forall|k: int| 0 <= k < s.len() ==> p(#[trigger] s[k]) == p(t[k]),
    ensures
        first_index(s, p) == first_index(t, p),
    decreases s.len(),
{
    if s.len() > 0 {
        assert forall|k: int| 0 <= k < s.len() - 1 implies p(#[trigger] s.drop_last()[k]) == p(
            t.drop_last()[k],
        ) by {
            assert(s.drop_last()[k] == s[k] && t.drop_last()[k] == t[k]);
        }
        assert(s[s.len() - 1] == s.last() && t[t.len() - 1] == t.last());
        lemma_same_first(s.drop_last(), t.drop_last(), p);
    }
}

/// The place of the first value of a table that a test finds to meet a condition.
pub(crate) fn find_first<K: Key, V, F: Fn(&V) -> bool>(
    t: &Table<K, V>,
    test: F,
    Ghost(p): Ghost<spec_fn((K, V)) -> bool>,
) -> (r: Option<usize>)
    requires
        forall|v: &V| #[trigger] test.requires((v,)),
        forall|i: int, b: bool|
            0 <= i < t.list().len() && #[trigger] test.ensures((&t.list()[i].1,), b) ==> b == p(
                t.list()[i],
            ),
    ensures
        match r {
            Some(i) => i < t.list().len() && first_index(t.list(), p) == Some(i as int),
            None => first_index(t.list(), p) is None,
        },
{
    let ghost all = t.list();
    let n: usize = t.len();
    for i in 0..n
        invariant
            n == all.len(),
            all == t.list(),
            forall|v: &V| #[trigger] test.requires((v,)),
            forall|k: int, b: bool|
                0 <= k < all.len() && #[trigger] test.ensures((&all[k].1,), b) ==> b == p(all[k]),
            forall|k: int| 0 <= k < i ==> !p(#[trigger] all[k]),
    {
        if test(t.value_at(i)) {
            proof {
                lemma_first(all, p, i as int);
            }
            return Some(i);
        }
    }
    proof {
        lemma_none(all, p);
    }
    None
}

} // verus!
