//! Advisory performance hints.
//!
//! Branch-likelihood markers and cache-prefetch walks are optimization hints
//! only: they never change observable behavior, and a build may omit the
//! underlying intrinsics entirely. This build does exactly that, so the
//! hints below are the identity on their condition, or do nothing at all.

use vstd::prelude::*;

verus! {

/// Marks a condition the caller expects to be true; returns it unchanged.
pub fn hint_likely(b: bool) -> (r: bool)
    ensures
        r == b,
{
    b
}

/// Marks a condition the caller expects to be false; returns it unchanged.
pub fn hint_unlikely(b: bool) -> (r: bool)
    ensures
        r == b,
{
    b
}

/// Touches the buffer's length so a future build can walk it in cache-line
/// strides; this build issues no prefetch instruction, so nothing else
/// happens.
pub fn prefetch_buffer<T: Sized>(buffer: &[T]) {
    let _ = buffer.len();
}

/// How many whole items of `item_size` bytes fit a 64-byte cache line,
/// never fewer than one.
pub open spec fn spec_items_per_line(item_size: nat) -> nat {
    if item_size == 0 || item_size >= 64 {
        1
    } else {
        (((64 + item_size - 1) as int) / (item_size as int)) as nat
    }
}

/// The (rounded-up) number of items of `T` per 64-byte cache line.
pub fn item_per_cache_line<T: Sized>() -> (r: usize)
    ensures
        r == spec_items_per_line(vstd::layout::size_of::<T>()),
{
    let item_size = core::mem::size_of::<T>();
    if item_size == 0 || item_size >= 64 {
        1
    } else {
        (64 + item_size - 1) / item_size
    }
}

} // verus!
