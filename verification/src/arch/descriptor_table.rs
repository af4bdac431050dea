//! Stacks for the task state segment.
use vstd::prelude::*;
use crate::memory::{align_down_spec, lemma_pow2_values};

verus! {

/// Entry of the interrupt stack table that the double fault handler runs on.
pub const DOUBLE_FAULT_IST_INDEX: usize = 0;

/// The address that a stack of `length` bytes at `base` starts from: its last
/// byte, rounded down to a multiple of 8.
pub fn stack_top(base: u64, length: u64) -> (top: u64)
    requires
        length > 0,
        base + length - 1 <= u64::MAX,
    ensures
        top == align_down_spec(base + length - 1, 8),
{
    proof {
        lemma_pow2_values();
    }
    x86_64::align_down(base + (length - 1), 8)
}

} // verus!
