//! Properties that relate several calls of the memoizer.
use crate::memo::{cached, ranked_above, MemoFunction, MemoPredicate, Memoizer};
use crate::store::{MemoStore, MemoVal};
use std::collections::{BTreeMap, HashMap};
use vstd::prelude::*;

verus! {

/// A key whose value was found and is kept is not computed again: the next
/// lookup of it returns the same value, invokes nothing and changes nothing.
pub proof fn lemma_second_lookup_hits<
    K: Clone,
    V: Clone,
    F: MemoFunction<K, V>,
    S: MemoStore<K, MemoVal<V>>,
    P: MemoPredicate<K>,
>(
    m0: Memoizer<K, V, F, S, P>,
    m1: Memoizer<K, V, F, S, P>,
    m2: Memoizer<K, V, F, S, P>,
    k: K,
    r1: Result<V, crate::memo::CircularDependency<K>>,
    r2: Result<V, crate::memo::CircularDependency<K>>,
)
    requires
        m0.keeps(k),
        r1 is Ok,
        Memoizer::lookup_step(m0, m1, k, r1),
        Memoizer::lookup_step(m1, m2, k, r2),
    ensures
        cached(m1@, k) == Some(r1->Ok_0),
        r2 == r1,
        m2@ == m1@,
        m2.invocations() == m1.invocations(),
{
}

/// A computed value that the predicate rejects leaves no slot behind, so a
/// read without computation finds nothing; one that it accepts is found.
pub proof fn lemma_predicate_opt_out<
    K: Clone,
    V: Clone,
    F: MemoFunction<K, V>,
    S: MemoStore<K, MemoVal<V>>,
    P: MemoPredicate<K>,
>(
    m0: Memoizer<K, V, F, S, P>,
    m1: Memoizer<K, V, F, S, P>,
    k: K,
    r: Result<V, crate::memo::CircularDependency<K>>,
)
    requires
        !m0@.contains_key(k),
        Memoizer::lookup_step(m0, m1, k, r),
    ensures
        !m0.keeps(k) ==> cached(m1@, k) is None,
        m0.keeps(k) && r is Ok ==> cached(m1@, k) == Some(r->Ok_0),
{
}

/// Memoized equals unmemoized: a lookup of a ranked key that no key in
/// progress stands in the way of succeeds with the user function's value of
/// the key, and the cache then holds that value wherever the key is kept.
/// In particular a lookup of a ranked key on a memoizer with nothing in
/// progress, such as a fresh one, succeeds.
pub proof fn lemma_lookup_gives_value<
    K: Clone,
    V: Clone,
    F: MemoFunction<K, V>,
    S: MemoStore<K, MemoVal<V>>,
    P: MemoPredicate<K>,
>(
    m0: Memoizer<K, V, F, S, P>,
    m1: Memoizer<K, V, F, S, P>,
    k: K,
    r: Result<V, crate::memo::CircularDependency<K>>,
)
    requires
        m0.user().rank(k) is Some,
        forall|j: K| !m0.in_progress(j),
        Memoizer::lookup_step(m0, m1, k, r),
    ensures
        r == Ok::<V, crate::memo::CircularDependency<K>>(m0.user().value(k)),
        m0.keeps(k) || m0@.contains_key(k) ==> cached(m1@, k) == Some(m0.user().value(k)),
        forall|j: K| #[trigger] m1@.contains_key(j) && !m0@.contains_key(j) && j != k ==> m0.user().rank(j)
            is Some && m0.user().rank(j)->0 < m0.user().rank(k)->0,
{
    assert(ranked_above(m0, |j: K| m0.user().rank(j), m0.user().rank(k)->0 + 1));
}

/// The two backing stores cannot be told apart. With the same user function,
/// predicate and cache, a lookup of a key that the cache answers gives the
/// same answer and the same cache on both; a lookup of a ranked key that no
/// key in progress stands in the way of succeeds on both with the same value
/// and the same slot for the key; and whenever both succeed, they agree.
pub proof fn lemma_backends_agree<
    K: Clone + std::hash::Hash + Eq + Ord,
    V: Clone,
    F: MemoFunction<K, V>,
    P: MemoPredicate<K>,
>(
    h0: Memoizer<K, V, F, HashMap<K, MemoVal<V>>, P>,
    h1: Memoizer<K, V, F, HashMap<K, MemoVal<V>>, P>,
    o0: Memoizer<K, V, F, BTreeMap<K, MemoVal<V>>, P>,
    o1: Memoizer<K, V, F, BTreeMap<K, MemoVal<V>>, P>,
    k: K,
    rh: Result<V, crate::memo::CircularDependency<K>>,
    ro: Result<V, crate::memo::CircularDependency<K>>,
)
    requires
        h0@ == o0@,
        h0.user() == o0.user(),
        h0.predicate() == o0.predicate(),
        Memoizer::lookup_step(h0, h1, k, rh),
        Memoizer::lookup_step(o0, o1, k, ro),
    ensures
        rh is Ok && ro is Ok ==> rh == ro && cached(h1@, k) == cached(o1@, k),
        h1@.contains_key(k) == o1@.contains_key(k),
        h0@.contains_key(k) ==> rh == ro && h1@ == o1@,
        h0.user().rank(k) is Some && !h0.in_progress(k) && ranked_above(
            h0,
            |j: K| h0.user().rank(j),
            h0.user().rank(k)->0 + 1,
        ) ==> rh is Ok && ro is Ok && rh == ro,
{
    assert(forall|j: K| #[trigger] h0.in_progress(j) == o0.in_progress(j));
    if h0.user().rank(k) is Some && !h0.in_progress(k) && ranked_above(
        h0,
        |j: K| h0.user().rank(j),
        h0.user().rank(k)->0 + 1,
    ) {
        assert(ranked_above(o0, |j: K| o0.user().rank(j), o0.user().rank(k)->0 + 1)) by {
            assert forall|j: K| #[trigger] o0.in_progress(j) && o0.user().rank(j) is Some implies o0.user().rank(
                j,
            )->0 >= o0.user().rank(k)->0 + 1 by {
                assert(h0.in_progress(j));
            }
        }
    }
}

} // verus!
