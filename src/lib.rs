//! A memoization cache for pure, possibly recursive functions from keys to values.
//!
//! [`Memoizer`] stores each computed value once, serves later lookups from its
//! cache, and reports a lookup of a key whose own computation is still running
//! as a circular dependency, which the user function hands on to the caller.
//! The cache lives in a hash-indexed or an order-indexed map, picked when the
//! memoizer is built; nothing else about it depends on that choice.
pub mod laws;
pub mod memo;
pub mod store;

pub use memo::{CircularDependency, KeepAll, MemoFunction, MemoPredicate, Memoizer};
pub use store::{MemoStore, MemoVal};
