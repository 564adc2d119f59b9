//! The memoizer: cached lookups of a recursive user function, with cycle detection.
use crate::store::{clone_is_exact, MemoStore, MemoVal};
use std::collections::{BTreeMap, HashMap};
use std::hash::Hash;
use std::marker::PhantomData;
use std::rc::Rc;
use vstd::prelude::*;

verus! {

/// The function that a [`Memoizer`] caches.
///
/// `compute` receives the memoizer itself so that it can look up the values
/// of other keys. Its contract is what an implementation owes when it reaches
/// the memoizer only through [`Memoizer::lookup`], never looks up the key it
/// is computing, returns `Err` exactly when one of its lookups did, and
/// otherwise returns its value of `k`. A `compute` that calls `lookup` is
/// recursive through this trait, which Verus does not accept in verified code;
/// such implementations are checked by their tests.
///
/// `rank` describes the shape of the recursion. Where `rank(k)` is
/// `Some(n)`, computing `k` looks up only keys of rank `Some(m)` with
/// `m < n`: the keys reachable from `k` are finite in depth and acyclic.
/// `None` promises nothing, as for a function whose dependencies may cycle.
pub trait MemoFunction<K: Clone, V: Clone>: Sized {
    /// The value of `k`: what `compute` returns for it when no lookup fails.
    spec fn value(&self, k: K) -> V;

    /// The rank of `k` in the recursion, if it has one.
    spec fn rank(&self, k: K) -> Option<u64>;

    /// Computes the value for `k`.
    fn compute<S: MemoStore<K, MemoVal<V>>, P: MemoPredicate<K>>(
        &self,
        mem: &mut Memoizer<K, V, Self, S, P>,
        k: &K,
    ) -> (r: Result<V, CircularDependency<K>>)
        requires
            old(mem).consistent(),
            old(mem).user() == *self,
            forall|j: K| #[trigger]
                old(mem)@.contains_key(j) && old(mem)@[j] is Finished ==> old(mem)@[j]->Finished_0
                    == self.value(j),
        ensures
            final(mem).consistent(),
            forall|j: K| #[trigger]
                final(mem)@.contains_key(j) && final(mem)@[j] is Finished ==> final(mem)@[j]->Finished_0
                    == self.value(j),
            final(mem).user() == old(mem).user(),
            final(mem).predicate() == old(mem).predicate(),
            keeps_slots(old(mem)@, final(mem)@),
            final(mem)@.contains_key(*k) == old(mem)@.contains_key(*k),
            old(mem).invocations().is_prefix_of(final(mem).invocations()),
            old(mem).failures() <= final(mem).failures(),
            r is Err <==> final(mem).failures() > old(mem).failures(),
            r is Ok ==> r->Ok_0 == self.value(*k) && adds_finished(old(mem)@, final(mem)@),
            self.rank(*k) is Some ==> below(old(mem)@, final(mem)@, |j: K| self.rank(j), self.rank(*k)->0),
            self.rank(*k) is Some && ranked_above(*old(mem), |j: K| self.rank(j), self.rank(*k)->0 as int) ==> r is Ok,
    ;
}

/// Decides for each key whether its computed value is kept in the cache.
pub trait MemoPredicate<K> {
    /// Whether the value of `k` is kept.
    spec fn keeps(&self, k: K) -> bool;

    /// Tells whether the value of `k` is kept.
    fn keep(&self, k: &K) -> (r: bool)
        ensures
            r == self.keeps(*k),
    ;
}

/// The predicate of a memoizer that has none installed: every value is kept.
#[derive(Clone, Copy, Debug, PartialEq, Eq)]
pub struct KeepAll;

impl<K> MemoPredicate<K> for KeepAll {
    open spec fn keeps(&self, k: K) -> bool {
        true
    }

    fn keep(&self, k: &K) -> (r: bool) {
        true
    }
}

/// `after` keeps every slot of `before` unchanged.
pub open spec fn keeps_slots<K, V>(before: Map<K, MemoVal<V>>, after: Map<K, MemoVal<V>>) -> bool {
    forall|j: K| #[trigger]
        before.contains_key(j) ==> after.contains_key(j) && after[j] == before[j]
}

/// Each slot that `after` adds to `before` is finished.
pub open spec fn adds_finished<K, V>(before: Map<K, MemoVal<V>>, after: Map<K, MemoVal<V>>) -> bool {
    forall|j: K| #[trigger]
        after.contains_key(j) && !before.contains_key(j) ==> after[j] is Finished
}

/// Each slot that `after` adds to `before` belongs to a key of rank below `n`.
pub open spec fn below<K, V>(
    before: Map<K, MemoVal<V>>,
    after: Map<K, MemoVal<V>>,
    rank: spec_fn(K) -> Option<u64>,
    n: u64,
) -> bool {
    forall|j: K| #[trigger]
        after.contains_key(j) && !before.contains_key(j) ==> rank(j) is Some && rank(j)->0 < n
}

/// Every ranked key in progress in `m` has a rank of at least `n`.
pub open spec fn ranked_above<K: Clone, V: Clone, F, S: MemoStore<K, MemoVal<V>>, P: MemoPredicate<K>>(
    m: Memoizer<K, V, F, S, P>,
    rank: spec_fn(K) -> Option<u64>,
    n: int,
) -> bool {
    forall|j: K| #[trigger] m.in_progress(j) && rank(j) is Some ==> rank(j)->0 >= n
}

/// The value cached for `k` in `cache`, if its slot is finished.
pub open spec fn cached<K, V>(cache: Map<K, MemoVal<V>>, k: K) -> Option<V> {
    if cache.contains_key(k) {
        match cache[k] {
            MemoVal::Finished(v) => Some(v),
            MemoVal::InProgress => None,
        }
    } else {
        None
    }
}

/// The error of a lookup of a key whose computation is still under way.
#[derive(Debug, PartialEq, Eq)]
pub struct CircularDependency<K> {
    /// The key that was looked up again before its value was known.
    pub key: K,
}

impl<K: Clone> Clone for CircularDependency<K> {
    fn clone(&self) -> (r: Self)
        ensures
            cloned(self.key, r.key),
    {
        CircularDependency { key: self.key.clone() }
    }
}

/// Memoization cache for a recursive user function.
///
/// `S` is the backing store, a `HashMap` or a `BTreeMap`, chosen by the
/// constructor; nothing else depends on it. `P` is the memoization predicate,
/// [`KeepAll`] until another is installed.
#[verifier::reject_recursive_types(K)]
pub struct Memoizer<K, V, F, S, P> {
    cache: S,
    user_function: Rc<F>,
    memo_predicate: P,
    invocations: Ghost<Seq<K>>,
    failures: Ghost<nat>,
    slot_values: PhantomData<V>,
}

impl<K: Clone, V: Clone, F, S: MemoStore<K, MemoVal<V>>, P> View for Memoizer<K, V, F, S, P> {
    type V = Map<K, MemoVal<V>>;

    /// The cache: the slot of each key that has one.
    closed spec fn view(&self) -> Map<K, MemoVal<V>> {
        self.cache.contents()
    }
}

impl<K: Clone, V: Clone, F, S: MemoStore<K, MemoVal<V>>, P: MemoPredicate<K>> Memoizer<
    K,
    V,
    F,
    S,
    P,
> {
    /// The user function.
    pub closed spec fn user(&self) -> F {
        *self.user_function
    }

    /// The memoization predicate.
    pub closed spec fn predicate(&self) -> P {
        self.memo_predicate
    }

    /// Whether a freshly computed value of `k` is kept in the cache.
    pub open spec fn keeps(&self, k: K) -> bool {
        self.predicate().keeps(k)
    }

    /// The keys on which the user function was invoked, in order, since the
    /// predicate was installed.
    pub closed spec fn invocations(&self) -> Seq<K> {
        self.invocations@
    }

    /// How many lookups have failed with a circular dependency.
    pub closed spec fn failures(&self) -> nat {
        self.failures@
    }

    /// The store works with the key type; cloning a key or a value gives an
    /// equal one; and a key whose value is kept was computed at most once,
    /// its slot created when it was.
    pub closed spec fn consistent(&self) -> bool {
        &&& self.cache.valid()
        &&& clone_is_exact::<K>()
        &&& clone_is_exact::<V>()
        &&& forall|i: int|
            0 <= i < self.invocations@.len() && self.keeps(#[trigger] self.invocations@[i])
                ==> self@.contains_key(self.invocations@[i])
        &&& forall|i: int, j: int|
            0 <= i < j < self.invocations@.len() && #[trigger] self.invocations@[i]
                == #[trigger] self.invocations@[j] ==> !self.keeps(self.invocations@[i])
    }

    /// `k` is being computed: a lookup of it now would be circular.
    pub open spec fn in_progress(&self, k: K) -> bool {
        self@.contains_key(k) && self@[k] is InProgress
    }
}

impl<
    K: Clone,
    V: Clone,
    F: MemoFunction<K, V>,
    S: MemoStore<K, MemoVal<V>>,
    P: MemoPredicate<K>,
> Memoizer<K, V, F, S, P> {
    /// The memoizer is consistent, and every finished slot holds the user
    /// function's value of its key.
    pub closed spec fn wf(&self) -> bool {
        &&& self.consistent()
        &&& forall|j: K| #[trigger]
            self@.contains_key(j) && self@[j] is Finished ==> self@[j]->Finished_0
                == self.user().value(j)
    }

    /// `after` and `r` are the outcome of a lookup of `k` in `before`.
    ///
    /// The lookup fails exactly when it or a nested lookup met a key in
    /// progress; after a success every slot it added is finished. Where `k`
    /// has a rank, the slots added for other keys belong to keys of lower
    /// rank, and success is owed when `k` is not in progress and every ranked
    /// key in progress ranks strictly above `k`: the recursion from `k` then
    /// never meets a key in progress.
    ///
    /// A slot of `k` answers at once, without invoking the user function:
    /// a finished one with its value, one in progress with a circular
    /// dependency. A missing key is computed by invoking the user function on
    /// it first; a success is its value, and the key's slot exists exactly
    /// when the predicate keeps it, finished with the value on success and in
    /// progress on failure. Every other slot stays as it was.
    pub open spec fn lookup_step(
        before: Self,
        after: Self,
        k: K,
        r: Result<V, CircularDependency<K>>,
    ) -> bool {
        &&& after.user() == before.user()
        &&& after.predicate() == before.predicate()
        &&& keeps_slots(before@, after@)
        &&& before.invocations().is_prefix_of(after.invocations())
        &&& before.failures() <= after.failures()
        &&& (r is Err <==> after.failures() > before.failures())
        &&& (r is Ok ==> r->Ok_0 == before.user().value(k) && adds_finished(before@, after@))
        &&& (before.user().rank(k) is Some ==> forall|j: K| #[trigger]
            after@.contains_key(j) && !before@.contains_key(j) && j != k ==> before.user().rank(j) is Some
                && before.user().rank(j)->0 < before.user().rank(k)->0)
        &&& (before.user().rank(k) is Some && !before.in_progress(k) && ranked_above(
            before,
            |j: K| before.user().rank(j),
            before.user().rank(k)->0 + 1,
        ) ==> r is Ok)
        &&& if before@.contains_key(k) {
            &&& after@ == before@
            &&& after.invocations() == before.invocations()
            &&& r == match before@[k] {
                MemoVal::Finished(v) => Ok::<V, CircularDependency<K>>(v),
                MemoVal::InProgress => Err(CircularDependency { key: k }),
            }
        } else {
            &&& after.invocations().len() > before.invocations().len()
            &&& after.invocations()[before.invocations().len() as int] == k
            &&& after@.contains_key(k) == before.keeps(k)
            &&& match r {
                Ok(v) => v == before.user().value(k) && (before.keeps(k) ==> after@[k]
                    == MemoVal::Finished(v)),
                Err(_) => before.keeps(k) ==> after@[k] is InProgress,
            }
        }
    }

    /// Installs a memoization predicate, replacing the current one.
    ///
    /// Keys that the predicate rejects are computed as usual but their values
    /// are not stored once computed. Slots already in the cache are not
    /// touched. The record of invocations starts afresh.
    pub fn set_memo_predicate<Q: MemoPredicate<K>>(self, predicate: Q) -> (m: Memoizer<K, V, F, S, Q>)
        ensures
            m@ == self@,
            m.user() == self.user(),
            m.predicate() == predicate,
            m.invocations() == Seq::<K>::empty(),
            m.failures() == self.failures(),
            self.wf() ==> m.wf(),
    {
        Memoizer {
            cache: self.cache,
            user_function: self.user_function,
            memo_predicate: predicate,
            invocations: Ghost(Seq::empty()),
            failures: self.failures,
            slot_values: PhantomData,
        }
    }

    /// The user function is invoked at most once on a key whose value is
    /// kept, however many lookups there are.
    pub proof fn lemma_kept_key_invoked_once(&self, k: K)
        requires
            self.wf(),
            self.keeps(k),
        ensures
            forall|i: int, j: int|
                0 <= i < j < self.invocations().len() ==> !(#[trigger] self.invocations()[i] == k
                    && #[trigger] self.invocations()[j] == k),
    {
    }

    /// Prepares the computation of the missing key `k`: records that the user
    /// function is invoked on it and, if its value is kept, marks its slot as
    /// in progress.
    fn mark(&mut self, k: &K, keep: bool)
        requires
            old(self).wf(),
            !old(self)@.contains_key(*k),
            keep == old(self).keeps(*k),
        ensures
            final(self).wf(),
            final(self)@ == if keep {
                old(self)@.insert(*k, MemoVal::InProgress)
            } else {
                old(self)@
            },
            final(self).invocations() == old(self).invocations().push(*k),
            final(self).user() == old(self).user(),
            final(self).predicate() == old(self).predicate(),
            final(self).failures() == old(self).failures(),
    {
        if keep {
            let key = k.clone();
            let fresh = self.cache.insert(key, MemoVal::InProgress);
            assert(fresh is Ok && key == *k);
        }
        self.invocations = Ghost(self.invocations@.push(*k));
    }

    /// Ends the computation of `k` with its outcome: a success is stored in
    /// the slot of a kept key, a failure is counted, and the outcome is
    /// handed back unchanged.
    fn finish(&mut self, k: &K, keep: bool, outcome: Result<V, CircularDependency<K>>) -> (r: Result<V, CircularDependency<K>>)
        requires
            old(self).wf(),
            keep ==> old(self).in_progress(*k),
            outcome is Ok ==> outcome->Ok_0 == old(self).user().value(*k),
        ensures
            final(self).wf(),
            r == outcome,
            final(self)@ == if keep && outcome is Ok {
                old(self)@.insert(*k, MemoVal::Finished(outcome->Ok_0))
            } else {
                old(self)@
            },
            final(self).invocations() == old(self).invocations(),
            final(self).user() == old(self).user(),
            final(self).predicate() == old(self).predicate(),
            final(self).failures() == if outcome is Ok {
                old(self).failures()
            } else {
                old(self).failures() + 1
            },
    {
        match &outcome {
            Ok(v) => {
                if keep {
                    let present = self.cache.update(k, MemoVal::Finished(v.clone()));
                    assert(present);
                }
            },
            Err(_) => {
                self.failures = Ghost(self.failures@ + 1);
            },
        }
        outcome
    }

    /// Looks up a key in the cache, but does not compute it if it is not present.
    ///
    /// A key whose computation is under way has no value yet.
    pub fn lookup_immut(&self, k: &K) -> (r: Option<V>)
        requires
            self.wf(),
        ensures
            r == cached(self@, *k),
            r is Some ==> r->0 == self.user().value(*k),
    {
        match self.cache.get(k) {
            Some(MemoVal::Finished(v)) => Some(v),
            Some(MemoVal::InProgress) => None,
            None => None,
        }
    }

    /// Looks up a key in the cache, calculating its value if necessary.
    ///
    /// Before the value of a kept key is computed, an in-progress marker is
    /// placed in its slot; once computed, the marker is replaced by the value.
    /// A lookup of a key that is in progress is a circular dependency: it
    /// returns `Err`, which the user function hands on up the call stack. The
    /// slots of the keys whose computation failed stay in progress.
    pub fn lookup(&mut self, k: &K) -> (r: Result<V, CircularDependency<K>>)
        requires
            old(self).wf(),
        ensures
            final(self).wf(),
            Self::lookup_step(*old(self), *final(self), *k, r),
    {
        match self.cache.get(k) {
            Some(MemoVal::Finished(v)) => Ok(v),
            Some(MemoVal::InProgress) => {
                let key = k.clone();
                self.failures = Ghost(self.failures@ + 1);
                Err(CircularDependency { key })
            },
            None => {
                let keep = self.memo_predicate.keep(k);
                let ghost before = *self;
                self.mark(k, keep);
                let ghost marked = *self;
                let user = Rc::clone(&self.user_function);
                let outcome = user.compute(self, k);
                let ghost done = *self;
                let r = self.finish(k, keep, outcome);
                assert(r is Ok ==> adds_finished(before@, self@));
                assert(before.failures() <= self.failures());
                assert(r is Err <==> self.failures() > before.failures());
                assert(before.user().rank(*k) is Some ==> forall|j: K| #[trigger]
                    self@.contains_key(j) && !before@.contains_key(j) && j != *k ==> before.user().rank(j) is Some
                        && before.user().rank(j)->0 < before.user().rank(*k)->0);
                proof {
                if before.user().rank(*k) is Some && ranked_above(
                    before,
                    |j: K| before.user().rank(j),
                    before.user().rank(*k)->0 + 1,
                ) {
                    assert(ranked_above(marked, |j: K| before.user().rank(j), before.user().rank(*k)->0 as int)) by {
                        assert forall|j: K| #[trigger] marked.in_progress(j) && before.user().rank(j) is Some
                            implies before.user().rank(j)->0 >= before.user().rank(*k)->0 by {
                            if j != *k {
                                assert(before.in_progress(j));
                            }
                        }
                    }
                    assert(r is Ok);
                }
                }
                assert(keeps_slots(before@, self@)) by {
                    assert forall|j: K| #[trigger] before@.contains_key(j) implies self@.contains_key(j)
                        && self@[j] == before@[j] by {
                        assert(marked@.contains_key(j) && marked@[j] == before@[j]);
                        assert(done@.contains_key(j) && done@[j] == marked@[j]);
                    }
                }
                assert(self.invocations@.subrange(0, marked.invocations@.len() as int)[before.invocations@.len() as int] == *k);
                assert(before.invocations@.is_prefix_of(self.invocations@)) by {
                    assert(before.invocations@ =~= self.invocations@.subrange(0, before.invocations@.len() as int));
                }
                r
            },
        }
    }
}

impl<K: Clone + Hash + Eq, V: Clone, F: MemoFunction<K, V>> Memoizer<
    K,
    V,
    F,
    HashMap<K, MemoVal<V>>,
    KeepAll,
> {
    /// Creates a Memoizer whose cache is a `HashMap`, with no predicate.
    pub fn new_hash(user: F) -> (m: Self)
        requires
            vstd::std_specs::hash::obeys_key_model::<K>(),
            clone_is_exact::<K>(),
            clone_is_exact::<V>(),
        ensures
            m.wf(),
            m@ == Map::<K, MemoVal<V>>::empty(),
            m.user() == user,
            m.predicate() == KeepAll,
            m.invocations() == Seq::<K>::empty(),
    {
        Memoizer {
            cache: HashMap::new(),
            user_function: Rc::new(user),
            memo_predicate: KeepAll,
            invocations: Ghost(Seq::empty()),
            failures: Ghost(0),
            slot_values: PhantomData,
        }
    }
}

impl<K: Clone + Ord, V: Clone, F: MemoFunction<K, V>> Memoizer<
    K,
    V,
    F,
    BTreeMap<K, MemoVal<V>>,
    KeepAll,
> {
    /// Creates a Memoizer whose cache is a `BTreeMap`, with no predicate.
    pub fn new_ord(user: F) -> (m: Self)
        requires
            vstd::laws_cmp::obeys_cmp::<K>(),
            clone_is_exact::<K>(),
            clone_is_exact::<V>(),
        ensures
            m.wf(),
            m@ == Map::<K, MemoVal<V>>::empty(),
            m.user() == user,
            m.predicate() == KeepAll,
            m.invocations() == Seq::<K>::empty(),
    {
        Memoizer {
            cache: BTreeMap::new(),
            user_function: Rc::new(user),
            memo_predicate: KeepAll,
            invocations: Ghost(Seq::empty()),
            failures: Ghost(0),
            slot_values: PhantomData,
        }
    }
}

} // verus!
