//! Alignment of addresses as the `x86_64` crate computes it.
use vstd::prelude::*;
use vstd::arithmetic::power2::is_pow2;
use crate::memory::{align_down_spec, align_up_spec};

verus! {

/// `x86_64::align_up` returns the smallest multiple of `align` that is not
/// below `addr`. It panics when `align` is no power of two and when that
/// multiple does not fit 64 bits, so neither is admitted.
pub assume_specification[ x86_64::align_up ](addr: u64, align: u64) -> (aligned: u64)
    requires
        is_pow2(align as int),
        align_up_spec(addr as int, align as int) <= u64::MAX,
    ensures
        aligned == align_up_spec(addr as int, align as int),
;

/// `x86_64::align_down` returns the greatest multiple of `align` that is not
/// above `addr`. It panics when `align` is no power of two, which is not
/// admitted.
pub assume_specification[ x86_64::align_down ](addr: u64, align: u64) -> (aligned: u64)
    requires
        is_pow2(align as int),
    ensures
        aligned == align_down_spec(addr as int, align as int),
;

} // verus!
