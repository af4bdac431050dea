//! Address arithmetic shared by the frame allocator and the heap allocator.
use vstd::prelude::*;
use vstd::arithmetic::power2::is_pow2;

pub mod allocator;
pub mod frame_allocator;
pub mod paging;

verus! {

/// Size of a page of virtual memory and of a frame of physical memory, in bytes.
pub const PAGE_SIZE: u64 = 4096;

/// The least multiple of `align` that is not below `addr`.
pub open spec fn align_up_spec(addr: int, align: int) -> int {
    if addr % align == 0 {
        addr
    } else {
        addr + (align - addr % align)
    }
}

/// The greatest multiple of `align` that is not above `addr`.
pub open spec fn align_down_spec(addr: int, align: int) -> int {
    addr - addr % align
}

/// `align_up_spec` yields a multiple of `align` in `[addr, addr + align)`, and
/// no multiple of `align` lies strictly between `addr` and it.
pub proof fn lemma_align_up(addr: int, align: int)
    requires
        align > 0,
    ensures
        align_up_spec(addr, align) % align == 0,
        addr <= align_up_spec(addr, align) < addr + align,
        forall|m: int| addr <= m && #[trigger] (m % align) == 0 ==> align_up_spec(addr, align) <= m,
{
    let r = addr % align;
    let up = align_up_spec(addr, align);
    assert(up % align == 0) by (nonlinear_arith)
        requires
            align > 0,
            r == addr % align,
            up == if r == 0 { addr } else { addr + (align - r) },
    ;
    assert forall|m: int| addr <= m && #[trigger] (m % align) == 0 implies up <= m by {
        if m < up {
            assert(false) by (nonlinear_arith)
                requires
                    align > 0,
                    addr <= m < up,
                    up < addr + align,
                    m % align == 0,
                    up % align == 0,
            ;
        }
    }
}

/// `align_down_spec` yields a multiple of `align` in `(addr - align, addr]`.
pub proof fn lemma_align_down(addr: int, align: int)
    requires
        align > 0,
    ensures
        align_down_spec(addr, align) % align == 0,
        addr - align < align_down_spec(addr, align) <= addr,
{
    let r = addr % align;
    let down = align_down_spec(addr, align);
    assert(down % align == 0) by (nonlinear_arith)
        requires
            align > 0,
            r == addr % align,
            down == addr - r,
    ;
}

/// Rounds `addr` up to the next multiple of `align`.
pub fn align_up(addr: u64, align: u64) -> (aligned: u64)
    requires
        align > 0,
        align_up_spec(addr as int, align as int) <= u64::MAX,
    ensures
        aligned == align_up_spec(addr as int, align as int),
        aligned % align == 0,
        addr <= aligned < addr + align,
{
    proof {
        lemma_align_up(addr as int, align as int);
    }
    let rem: u64 = addr % align;
    if rem == 0 {
        addr
    } else {
        addr + (align - rem)
    }
}

/// Rounds `addr` up to the next multiple of `align`, or reports that the
/// result does not fit the address space.
pub fn checked_align_up(addr: u64, align: u64) -> (aligned: Option<u64>)
    requires
        align > 0,
    ensures
        aligned == if align_up_spec(addr as int, align as int) <= u64::MAX {
            Some(align_up_spec(addr as int, align as int) as u64)
        } else {
            None::<u64>
        },
{
    let rem: u64 = addr % align;
    if rem == 0 {
        Some(addr)
    } else {
        addr.checked_add(align - rem)
    }
}

/// Rounds `addr` down to the previous multiple of `align`.
pub fn align_down(addr: u64, align: u64) -> (aligned: u64)
    requires
        align > 0,
    ensures
        aligned == align_down_spec(addr as int, align as int),
        aligned % align == 0,
        addr - align < aligned <= addr,
{
    proof {
        lemma_align_down(addr as int, align as int);
    }
    assert(addr % align <= addr) by (nonlinear_arith)
        requires
            align > 0,
    ;
    addr - addr % align
}

/// Tells whether `addr` is a multiple of `align`.
pub fn is_aligned(addr: u64, align: u64) -> (aligned: bool)
    requires
        align > 0,
    ensures
        aligned == (addr as int % align as int == 0),
{
    addr % align == 0
}

/// The alignments that the kernel uses are powers of two: 8 bytes, a page,
/// and a large page of 2 MiB.
pub proof fn lemma_pow2_values()
    ensures
        is_pow2(8),
        is_pow2(PAGE_SIZE as int),
        is_pow2(0x20_0000),
{
    vstd::arithmetic::power2::lemma2_to64();
    vstd::arithmetic::power::lemma_pow_positive(2, 3);
    vstd::arithmetic::power::lemma_pow_positive(2, 12);
    vstd::arithmetic::power::lemma_pow_positive(2, 21);
    assert(vstd::arithmetic::power::pow(2, 3) == 8);
    assert(vstd::arithmetic::power::pow(2, 12) == 4096);
    assert(vstd::arithmetic::power::pow(2, 21) == 0x20_0000);
    vstd::arithmetic::power2::is_pow2_equiv(8);
    vstd::arithmetic::power2::is_pow2_equiv(4096);
    vstd::arithmetic::power2::is_pow2_equiv(0x20_0000);
}

} // verus!
