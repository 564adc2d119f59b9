use red_memo::{CircularDependency, MemoFunction, MemoPredicate, MemoStore, MemoVal, Memoizer};
use std::cell::Cell;
use std::rc::Rc;

struct Fibonacci;

impl MemoFunction<usize, usize> for Fibonacci {
    fn rank(&self, k: usize) -> Option<u64> {
        Some(k as u64)
    }

    fn value(&self, k: usize) -> usize {
        let (mut a, mut b) = (0usize, 1usize);
        for _ in 0..k {
            let next = a + b;
            a = b;
            b = next;
        }
        a
    }

    fn compute<S: MemoStore<usize, MemoVal<usize>>, P: MemoPredicate<usize>>(
        &self,
        mem: &mut Memoizer<usize, usize, Self, S, P>,
        k: &usize,
    ) -> Result<usize, CircularDependency<usize>> {
        let k = *k;
        if k < 2 {
            Ok(k)
        } else {
            Ok(mem.lookup(&(k - 1))? + mem.lookup(&(k - 2))?)
        }
    }
}

#[test]
fn fibonacci_value_matches_lookups() {
    let mut fib_cache = Memoizer::new_hash(Fibonacci);
    for k in 0..60usize {
        assert_eq!(fib_cache.lookup(&k), Ok(Fibonacci.value(k)));
    }
}

#[test]
fn fibs_ord() {
    let mut fib_cache = Memoizer::new_ord(Fibonacci);
    assert_eq!(fib_cache.lookup(&0), Ok(0));
    assert_eq!(fib_cache.lookup(&1), Ok(1));
    assert_eq!(fib_cache.lookup(&2), Ok(1));
    assert_eq!(fib_cache.lookup(&3), Ok(2));
    assert_eq!(fib_cache.lookup(&20), Ok(6765));
    assert_eq!(fib_cache.lookup(&30), Ok(832040));
    assert_eq!(fib_cache.lookup(&40), Ok(102334155));
}

#[test]
fn fibs_hash() {
    let mut fib_cache = Memoizer::new_hash(Fibonacci);
    assert_eq!(fib_cache.lookup(&0), Ok(0));
    assert_eq!(fib_cache.lookup(&1), Ok(1));
    assert_eq!(fib_cache.lookup(&2), Ok(1));
    assert_eq!(fib_cache.lookup(&3), Ok(2));
    assert_eq!(fib_cache.lookup(&20), Ok(6765));
    assert_eq!(fib_cache.lookup(&30), Ok(832040));
    assert_eq!(fib_cache.lookup(&40), Ok(102334155));
}

/// Squares its key and counts its own invocations.
struct CountingSquare {
    calls: Rc<Cell<u32>>,
}

impl MemoFunction<u64, u64> for CountingSquare {
    fn rank(&self, _k: u64) -> Option<u64> {
        Some(0)
    }

    fn value(&self, k: u64) -> u64 {
        k * k
    }

    fn compute<S: MemoStore<u64, MemoVal<u64>>, P: MemoPredicate<u64>>(
        &self,
        _mem: &mut Memoizer<u64, u64, Self, S, P>,
        k: &u64,
    ) -> Result<u64, CircularDependency<u64>> {
        self.calls.set(self.calls.get() + 1);
        Ok(k * k)
    }
}

#[test]
fn second_lookup_is_served_from_the_cache() {
    let calls = Rc::new(Cell::new(0));
    let mut cache = Memoizer::new_hash(CountingSquare { calls: calls.clone() });
    assert_eq!(cache.lookup(&7), Ok(49));
    assert_eq!(calls.get(), 1);
    assert_eq!(cache.lookup(&7), Ok(49));
    assert_eq!(calls.get(), 1);
    assert_eq!(cache.lookup(&8), Ok(64));
    assert_eq!(calls.get(), 2);
}

/// Fibonacci over `u64` values, counting its own invocations.
struct CountingFib {
    calls: Rc<Cell<u32>>,
}

impl MemoFunction<usize, u64> for CountingFib {
    fn rank(&self, k: usize) -> Option<u64> {
        Some(k as u64)
    }

    fn value(&self, k: usize) -> u64 {
        let (mut a, mut b) = (0u64, 1u64);
        for _ in 0..k {
            let next = a.wrapping_add(b);
            a = b;
            b = next;
        }
        a
    }

    fn compute<S: MemoStore<usize, MemoVal<u64>>, P: MemoPredicate<usize>>(
        &self,
        mem: &mut Memoizer<usize, u64, Self, S, P>,
        k: &usize,
    ) -> Result<u64, CircularDependency<usize>> {
        self.calls.set(self.calls.get() + 1);
        if *k < 2 {
            Ok(*k as u64)
        } else {
            Ok(mem.lookup(&(k - 1))? + mem.lookup(&(k - 2))?)
        }
    }
}

#[test]
fn each_fibonacci_key_is_computed_once() {
    let calls = Rc::new(Cell::new(0));
    let mut cache = Memoizer::new_ord(CountingFib { calls: calls.clone() });
    assert_eq!(cache.lookup(&50), Ok(12586269025));
    assert_eq!(calls.get(), 51);
    assert_eq!(cache.lookup(&50), Ok(12586269025));
    assert_eq!(cache.lookup(&25), Ok(75025));
    assert_eq!(calls.get(), 51);
}

#[test]
fn lookup_of_forty_invokes_forty_one_times() {
    let calls = Rc::new(Cell::new(0));
    let mut cache = Memoizer::new_ord(CountingFib { calls: calls.clone() });
    assert_eq!(cache.lookup(&40), Ok(102334155));
    assert_eq!(calls.get(), 41);
    assert_eq!(cache.lookup(&30), Ok(832040));
    assert_eq!(calls.get(), 41);
}

/// Keeps the values of odd keys only.
struct OddKeys;

impl MemoPredicate<usize> for OddKeys {
    fn keeps(&self, k: usize) -> bool {
        k % 2 == 1
    }

    fn keep(&self, k: &usize) -> bool {
        k % 2 == 1
    }
}

#[test]
fn predicate_keeps_odd_keys_only() {
    let mut fib_cache = Memoizer::new_hash(Fibonacci).set_memo_predicate(OddKeys);
    assert_eq!(fib_cache.lookup(&10), Ok(55));
    assert_eq!(fib_cache.lookup_immut(&10), None);
    assert_eq!(fib_cache.lookup_immut(&8), None);
    assert_eq!(fib_cache.lookup_immut(&9), Some(34));
    assert_eq!(fib_cache.lookup_immut(&7), Some(13));
    assert_eq!(fib_cache.lookup(&20), Ok(6765));
    assert_eq!(fib_cache.lookup_immut(&20), None);
    assert_eq!(fib_cache.lookup_immut(&19), Some(4181));
}

#[test]
fn predicate_opt_out_recomputes_rejected_keys() {
    let calls = Rc::new(Cell::new(0));
    let mut cache = Memoizer::new_ord(CountingFib { calls: calls.clone() }).set_memo_predicate(OddKeys);
    assert_eq!(cache.lookup(&4), Ok(3));
    let after_first = calls.get();
    assert_eq!(cache.lookup(&4), Ok(3));
    assert!(calls.get() > after_first);
    assert_eq!(cache.lookup(&3), Ok(2));
    let after_three = calls.get();
    assert_eq!(cache.lookup(&3), Ok(2));
    assert_eq!(calls.get(), after_three);
}

#[test]
fn predicate_replacement_keeps_existing_slots() {
    let mut fib_cache = Memoizer::new_ord(Fibonacci);
    assert_eq!(fib_cache.lookup(&6), Ok(8));
    let mut fib_cache = fib_cache.set_memo_predicate(OddKeys);
    assert_eq!(fib_cache.lookup_immut(&6), Some(8));
    assert_eq!(fib_cache.lookup(&8), Ok(21));
    assert_eq!(fib_cache.lookup_immut(&8), None);
    assert_eq!(fib_cache.lookup_immut(&7), Some(13));
}

#[test]
fn without_predicate_every_value_is_kept() {
    let mut fib_cache = Memoizer::new_ord(Fibonacci);
    assert_eq!(fib_cache.lookup(&20), Ok(6765));
    for k in 0..=20usize {
        assert!(fib_cache.lookup_immut(&k).is_some());
    }
    assert_eq!(fib_cache.lookup_immut(&19), Some(4181));
    assert_eq!(fib_cache.lookup_immut(&0), Some(0));
    assert_eq!(fib_cache.lookup_immut(&21), None);
}

#[test]
fn lookup_immut_does_not_compute() {
    let calls = Rc::new(Cell::new(0));
    let cache = Memoizer::new_hash(CountingSquare { calls: calls.clone() });
    assert_eq!(cache.lookup_immut(&3), None);
    assert_eq!(cache.lookup_immut(&0), None);
    assert_eq!(calls.get(), 0);
}

/// Reads its own key without computing it, while that key is in progress.
struct ReadsItself;

impl MemoFunction<u32, Option<u32>> for ReadsItself {
    fn rank(&self, _k: u32) -> Option<u64> {
        Some(0)
    }

    fn value(&self, _k: u32) -> Option<u32> {
        None
    }

    fn compute<S: MemoStore<u32, MemoVal<Option<u32>>>, P: MemoPredicate<u32>>(
        &self,
        mem: &mut Memoizer<u32, Option<u32>, Self, S, P>,
        k: &u32,
    ) -> Result<Option<u32>, CircularDependency<u32>> {
        Ok(mem.lookup_immut(k).map(|v| v.unwrap_or(0)))
    }
}

#[test]
fn lookup_immut_of_key_in_progress_is_absent() {
    let mut cache = Memoizer::new_ord(ReadsItself);
    assert_eq!(cache.lookup(&5), Ok(None));
    assert_eq!(cache.lookup_immut(&5), Some(None));
}

/// `k` depends on `(k + 1) % 3`, so every key depends on itself.
struct Ring;

impl MemoFunction<u32, u32> for Ring {
    /// Every key depends on itself: no rank.
    fn rank(&self, _k: u32) -> Option<u64> {
        None
    }

    /// Never reached: every computation fails.
    fn value(&self, _k: u32) -> u32 {
        0
    }

    fn compute<S: MemoStore<u32, MemoVal<u32>>, P: MemoPredicate<u32>>(
        &self,
        mem: &mut Memoizer<u32, u32, Self, S, P>,
        k: &u32,
    ) -> Result<u32, CircularDependency<u32>> {
        Ok(mem.lookup(&((k + 1) % 3))? + 1)
    }
}

#[test]
fn circular_dependency_is_reported() {
    let mut cache = Memoizer::new_hash(Ring);
    assert_eq!(cache.lookup(&0), Err(CircularDependency { key: 0 }));
    assert_eq!(cache.lookup_immut(&0), None);
    assert_eq!(cache.lookup_immut(&1), None);
    assert_eq!(cache.lookup_immut(&2), None);
    assert_eq!(cache.lookup(&1), Err(CircularDependency { key: 1 }));
}

/// Looks up its own key directly.
struct SelfLoop;

impl MemoFunction<u8, u8> for SelfLoop {
    /// Every key depends on itself: no rank.
    fn rank(&self, _k: u8) -> Option<u64> {
        None
    }

    /// Never reached: every computation fails.
    fn value(&self, _k: u8) -> u8 {
        0
    }

    fn compute<S: MemoStore<u8, MemoVal<u8>>, P: MemoPredicate<u8>>(
        &self,
        mem: &mut Memoizer<u8, u8, Self, S, P>,
        k: &u8,
    ) -> Result<u8, CircularDependency<u8>> {
        mem.lookup(k)
    }
}

#[test]
fn direct_self_lookup_is_circular() {
    let mut cache = Memoizer::new_ord(SelfLoop);
    assert_eq!(cache.lookup(&4), Err(CircularDependency { key: 4 }));
    assert_eq!(cache.lookup_immut(&4), None);
}

#[test]
fn backends_return_identical_values() {
    let mut by_hash = Memoizer::new_hash(Fibonacci);
    let mut by_ord = Memoizer::new_ord(Fibonacci);
    let keys = [5usize, 0, 17, 1, 17, 30, 2, 29, 44];
    for k in keys.iter() {
        assert_eq!(by_hash.lookup(k), by_ord.lookup(k));
    }
    for k in 0..50usize {
        assert_eq!(by_hash.lookup_immut(&k), by_ord.lookup_immut(&k));
    }
}

#[test]
fn largest_fibonacci_in_u64() {
    let calls = Rc::new(Cell::new(0));
    let mut cache = Memoizer::new_hash(CountingFib { calls });
    assert_eq!(cache.lookup(&93), Ok(12200160415121876738));
}
