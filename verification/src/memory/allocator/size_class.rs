//! Size classes of the heap: thirty bins whose chunk sizes double from 8 bytes
//! up to 4 GiB.
use vstd::prelude::*;
use vstd::arithmetic::power2::{
    lemma2_to64, lemma2_to64_rest, lemma_pow2_strictly_increases, lemma_pow2_unfold, pow2,
};

verus! {

/// Number of bins of the heap allocator.
pub const BIN_COUNT: usize = 30;

/// The largest request that any bin can serve: the chunk size of the last bin.
pub const MAX_REQUEST: u64 = 0x1_0000_0000;

/// Chunk size of bin `bin`, in bytes: `2^(bin + 3)`.
pub open spec fn bin_size(bin: nat) -> nat {
    pow2(bin + 3)
}

/// The bin that serves requests of `size` bytes: the number of doublings of 8
/// that it takes to reach `size`.
pub open spec fn bin_number(size: nat) -> nat
    decreases size,
{
    if size <= 8 {
        0
    } else {
        1 + bin_number(((size + 1) / 2) as nat)
    }
}

/// `bin_number(size)` is the smallest bin whose chunks hold `size` bytes.
pub proof fn lemma_bin_number_is_least(size: nat)
    ensures
        size <= bin_size(bin_number(size)),
        forall|bin: nat| size <= bin_size(bin) ==> bin_number(size) <= bin,
    decreases size,
{
    lemma2_to64();
    if size <= 8 {
    } else {
        let half = ((size + 1) / 2) as nat;
        lemma_bin_number_is_least(half);
        let k = bin_number(half);
        lemma_pow2_unfold(k + 4);
        assert(k + 4 - 1 == k + 3);
        assert forall|bin: nat| size <= bin_size(bin) implies bin_number(size) <= bin by {
            if bin == 0 {
            } else {
                lemma_pow2_unfold(bin + 3);
                assert((bin + 3 - 1) as nat == (bin - 1) as nat + 3);
                assert(half <= bin_size((bin - 1) as nat));
            }
        }
    }
}

/// Chunk sizes grow with the bin index.
pub proof fn lemma_bin_size_monotonic(a: nat, b: nat)
    requires
        a <= b,
    ensures
        bin_size(a) <= bin_size(b),
{
    if a < b {
        lemma_pow2_strictly_increases(a + 3, b + 3);
    }
}

/// A larger request never lands in a smaller bin.
pub proof fn lemma_bin_number_monotonic(a: nat, b: nat)
    requires
        a <= b,
    ensures
        bin_number(a) <= bin_number(b),
{
    lemma_bin_number_is_least(a);
    lemma_bin_number_is_least(b);
}

/// The chunk of the bin chosen for a request is at least as large as the
/// request.
pub proof fn lemma_bin_size_covers_request(size: nat)
    ensures
        bin_size(bin_number(size)) >= size,
{
    lemma_bin_number_is_least(size);
}

/// A request fits one of the thirty bins exactly when it is at most 4 GiB.
pub proof fn lemma_bin_number_in_range(size: nat)
    ensures
        bin_number(size) < BIN_COUNT <==> size <= MAX_REQUEST,
{
    lemma2_to64();
    lemma_bin_number_is_least(size);
    assert(bin_size(29) == 0x1_0000_0000);
    if size <= MAX_REQUEST {
    } else {
        if bin_number(size) < BIN_COUNT {
            lemma_bin_size_monotonic(bin_number(size), 29);
        }
    }
}

/// Chunk size of bin `bin_number`.
pub fn get_bin_size(bin_number: usize) -> (size: u64)
    requires
        bin_number < BIN_COUNT,
    ensures
        size == bin_size(bin_number as nat),
        8 <= size <= MAX_REQUEST,
{
    let shift: u64 = bin_number as u64 + 3;
    proof {
        lemma2_to64();
        lemma_bin_size_monotonic(0, bin_number as nat);
        lemma_bin_size_monotonic(bin_number as nat, 29);
        vstd::bits::lemma_u64_shl_is_mul(1u64, shift);
    }
    1u64 << shift
}

/// The bin that serves a request of `size` bytes. For a request beyond
/// `MAX_REQUEST` the result is `BIN_COUNT` or more and names no bin.
pub fn get_bin_number(size: u64) -> (bin: usize)
    requires
        size > 0,
    ensures
        bin == bin_number(size as nat),
        bin < BIN_COUNT <==> size <= MAX_REQUEST,
{
    let mut bin: usize = 0;
    let mut rest: u64 = (size - 1) / 8;
    let ghost mut bound: nat = size as nat;
    proof {
        lemma2_to64();
        lemma2_to64_rest();
        lemma_bin_number_in_range(size as nat);
        lemma_bin_number_is_least(size as nat);
        assert(bin_size(61) == 0x1_0000_0000_0000_0000);
    }
    while rest > 0
        invariant
            bound >= 1,
            rest == (bound - 1) / 8,
            bin + bin_number(bound) == bin_number(size as nat),
            bin_number(size as nat) <= 61,
        decreases rest,
    {
        proof {
            let half = ((bound + 1) / 2) as nat;
            assert(bound > 8);
            assert((half - 1) / 8 == rest / 2);
            bound = half;
        }
        rest = rest / 2;
        bin = bin + 1;
    }
    bin
}

} // verus!
