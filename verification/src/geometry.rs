//! A point shared between threads, held as the bit patterns of its two
//! coordinates.
use vstd::prelude::*;
use std::sync::atomic::{AtomicU64, Ordering};

verus! {

/// A point whose coordinates other threads may read and write at any time.
/// Each coordinate is stored as the bits of a 64-bit float; what a load sees
/// depends on the other threads, so nothing is stated of it.
pub struct AtomicVec2 {
    x_bits: AtomicU64,
    y_bits: AtomicU64,
}

impl AtomicVec2 {
    /// A point with the given coordinate bits.
    pub fn new(x_bits: u64, y_bits: u64) -> (r: AtomicVec2) {
        AtomicVec2 { x_bits: AtomicU64::new(x_bits), y_bits: AtomicU64::new(y_bits) }
    }

    /// The coordinate bits, x then y (acquire loads).
    pub fn load(&self) -> (r: (u64, u64)) {
        (self.x_bits.load(Ordering::Acquire), self.y_bits.load(Ordering::Acquire))
    }

    /// Stores new coordinate bits (release stores).
    pub fn store(&self, x_bits: u64, y_bits: u64) {
        self.x_bits.store(x_bits, Ordering::Release);
        self.y_bits.store(y_bits, Ordering::Release);
    }
}

} // verus!
