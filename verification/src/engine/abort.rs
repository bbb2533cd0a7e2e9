//! The stop flag a search shares with its time manager.
use vstd::prelude::*;
use std::sync::atomic::AtomicBool;
use std::sync::atomic::Ordering;
use std::sync::Arc;

verus! {

/// A fresh, cleared flag.
pub fn new_flag() -> Arc<AtomicBool> {
    Arc::new(AtomicBool::new(false))
}

/// Reads the flag.
pub fn is_set(f: &Arc<AtomicBool>) -> bool {
    f.load(Ordering::Relaxed)
}

/// Raises the flag.
pub fn raise(f: &Arc<AtomicBool>) {
    f.store(true, Ordering::Relaxed)
}

} // verus!
