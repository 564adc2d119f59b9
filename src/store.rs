//! The backing store: a map from keys to cache slots, in two realizations.
use std::collections::{BTreeMap, HashMap};
use std::hash::Hash;
use vstd::prelude::*;

verus! {

/// The state of one key in the cache.
#[derive(Debug, PartialEq, Eq)]
pub enum MemoVal<V> {
    /// The key's value is being computed further up the call stack.
    InProgress,
    /// The key's value has been computed.
    Finished(V),
}

impl<V: Clone> Clone for MemoVal<V> {
    fn clone(&self) -> (r: Self)
        ensures
            r is InProgress <==> *self is InProgress,
            *self is Finished ==> cloned(self->Finished_0, r->Finished_0),
    {
        match self {
            MemoVal::InProgress => MemoVal::InProgress,
            MemoVal::Finished(v) => MemoVal::Finished(v.clone()),
        }
    }
}

/// A clone of a value of `T` always equals the value it was cloned from.
pub open spec fn clone_is_exact<T: Clone>() -> bool {
    forall|a: T, b: T| call_ensures(T::clone, (&a,), b) ==> a == b
}

/// Key-value storage with unique keys, behind which the cache is kept.
pub trait MemoStore<K, V: Clone> {
    /// The map that the store holds.
    spec fn contents(&self) -> Map<K, V>;

    /// The key type behaves as the store's operations assume.
    spec fn valid(&self) -> bool;

    /// Stores `v` under `k`. When `k` was already present its old value is
    /// replaced and handed back as `Err`.
    fn insert(&mut self, k: K, v: V) -> (r: Result<(), V>)
        requires
            old(self).valid(),
        ensures
            final(self).valid(),
            final(self).contents() == old(self).contents().insert(k, v),
            match r {
                Ok(()) => !old(self).contents().contains_key(k),
                Err(prev) => old(self).contents().contains_key(k) && prev == old(self).contents()[k],
            },
    ;

    /// A copy of the value stored under `k`, if any.
    fn get(&self, k: &K) -> (r: Option<V>)
        requires
            self.valid(),
        ensures
            match r {
                Some(v) => self.contents().contains_key(*k) && cloned(self.contents()[*k], v),
                None => !self.contents().contains_key(*k),
            },
    ;

    /// Overwrites the value under `k` when `k` is present; returns whether it was.
    fn update(&mut self, k: &K, v: V) -> (r: bool)
        requires
            old(self).valid(),
        ensures
            final(self).valid(),
            r == old(self).contents().contains_key(*k),
            final(self).contents() == if r {
                old(self).contents().insert(*k, v)
            } else {
                old(self).contents()
            },
    ;
}

impl<K: Hash + Eq + Clone, V: Clone> MemoStore<K, V> for HashMap<K, V> {
    open spec fn contents(&self) -> Map<K, V> {
        self@
    }

    open spec fn valid(&self) -> bool {
        &&& vstd::std_specs::hash::obeys_key_model::<K>()
        &&& clone_is_exact::<K>()
    }

    fn insert(&mut self, k: K, v: V) -> (r: Result<(), V>) {
        proof {
            broadcast use vstd::std_specs::hash::group_hash_axioms;
        }
        match HashMap::insert(self, k, v) {
            None => Ok(()),
            Some(prev) => Err(prev),
        }
    }

    fn get(&self, k: &K) -> (r: Option<V>) {
        proof {
            broadcast use vstd::std_specs::hash::group_hash_axioms;
        }
        match HashMap::get(self, k) {
            Some(v) => Some(v.clone()),
            None => None,
        }
    }

    fn update(&mut self, k: &K, v: V) -> (r: bool) {
        proof {
            broadcast use vstd::std_specs::hash::group_hash_axioms;
        }
        if HashMap::contains_key(self, k) {
            HashMap::insert(self, k.clone(), v);
            true
        } else {
            false
        }
    }
}

impl<K: Ord + Clone, V: Clone> MemoStore<K, V> for BTreeMap<K, V> {
    open spec fn contents(&self) -> Map<K, V> {
        self@
    }

    open spec fn valid(&self) -> bool {
        &&& vstd::laws_cmp::obeys_cmp::<K>()
        &&& clone_is_exact::<K>()
    }

    fn insert(&mut self, k: K, v: V) -> (r: Result<(), V>) {
        proof {
            broadcast use vstd::std_specs::btree::group_btree_axioms;
        }
        match BTreeMap::insert(self, k, v) {
            None => Ok(()),
            Some(prev) => Err(prev),
        }
    }

    fn get(&self, k: &K) -> (r: Option<V>) {
        proof {
            broadcast use vstd::std_specs::btree::group_btree_axioms;
        }
        match BTreeMap::get(self, k) {
            Some(v) => Some(v.clone()),
            None => None,
        }
    }

    fn update(&mut self, k: &K, v: V) -> (r: bool) {
        proof {
            broadcast use vstd::std_specs::btree::group_btree_axioms;
        }
        if BTreeMap::contains_key(self, k) {
            BTreeMap::insert(self, k.clone(), v);
            true
        } else {
            false
        }
    }
}

} // verus!
