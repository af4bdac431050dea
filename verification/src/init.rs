//! Layout of memory at boot: what of the memory that the boot loader reports
//! goes to which frame allocator, how far the map of physical memory
//! reaches, and where the heap's window ends.
use vstd::prelude::*;
use crate::memory::frame_allocator::{
    after_allocations, can_allocate, lemma_one_more_allocation, lemma_rest_fails, next_frame,
    Frame, FrameError, MemorySegment, PhysicalFrameAllocator, Span,
};
use crate::memory::{align_down_spec, align_up_spec, lemma_pow2_values, PAGE_SIZE};

verus! {

/// Physical memory below this address is reserved for the kernel: what the
/// kernel image leaves of it feeds the early frame allocator.
pub const MAX_KERNEL_MEMORY: u64 = 0x100_0000;

/// Addresses of the kernel image are physical addresses plus this base.
pub const KERNEL_TEXT_BASE: u64 = 0xFFFF_FFFF_8000_0000;

/// The map of physical memory covers at least this much.
pub const MIN_PHYSMAP: u64 = 0x1_0000_0000;

/// Size of the pages that the map of physical memory is made of.
pub const LARGE_PAGE_SIZE: u64 = 0x20_0000;

/// A range of physical memory as the boot loader reports it: from `start` up
/// to `end`.
#[derive(Debug, Clone, Copy, PartialEq, Eq, Structural)]
pub struct MemoryArea {
    pub start: u64,
    pub end: u64,
}

/// Whether `bound` is the highest end of `areas`: no area ends above it, and
/// one ends at it unless it is 0.
pub open spec fn is_highest_end(areas: Seq<MemoryArea>, bound: u64) -> bool {
    &&& forall|i: int| 0 <= i < areas.len() ==> (#[trigger] areas[i]).end <= bound
    &&& bound == 0 || exists|i: int| 0 <= i < areas.len() && (#[trigger] areas[i]).end == bound
}

/// The highest address at which an area of physical memory ends; 0 without
/// areas.
pub fn highest_address(areas: &[MemoryArea]) -> (bound: u64)
    ensures
        is_highest_end(areas@, bound),
{
    let mut bound: u64 = 0;
    let mut index: usize = 0;
    while index < areas.len()
        invariant
            index <= areas.len(),
            is_highest_end(areas@.take(index as int), bound),
        decreases areas.len() - index,
    {
        let ghost seen = areas@.take(index as int);
        let ghost more = areas@.take(index + 1);
        let area = areas[index];
        proof {
            assert forall|i: int| 0 <= i < seen.len() implies seen[i] == more[i] by {}
            assert(more[index as int] == area);
        }
        if area.end > bound {
            bound = area.end;
        } else {
            proof {
                if bound != 0 {
                    let witness = choose|i: int| 0 <= i < seen.len() && (#[trigger] seen[i]).end
                        == bound;
                    assert(more[witness].end == bound);
                }
            }
        }
        index = index + 1;
    }
    proof {
        assert(areas@.take(index as int) =~= areas@);
    }
    bound
}

/// The physical address of an address of the kernel image: the address
/// without `KERNEL_TEXT_BASE`, which are its low 31 bits.
pub fn kernel_physical_address(address: u64) -> (physical: u64)
    ensures
        physical == address % 0x8000_0000,
{
    assert(address & !0xFFFF_FFFF_8000_0000u64 == address % 0x8000_0000) by (bit_vector);
    address & !KERNEL_TEXT_BASE
}

/// The memory of the early frame allocator: what lies between the end of the
/// kernel image, at physical address `kernel_end`, and `MAX_KERNEL_MEMORY`.
/// There is none when the image reaches `MAX_KERNEL_MEMORY`.
pub fn low_memory_segment(kernel_end: u64) -> (segment: Result<MemorySegment, FrameError>)
    ensures
        match segment {
            Ok(s) => kernel_end < MAX_KERNEL_MEMORY && s@ == (Span {
                base: kernel_end as int,
                length: MAX_KERNEL_MEMORY - kernel_end,
            }),
            Err(e) => e == FrameError::InvalidSegment && kernel_end >= MAX_KERNEL_MEMORY,
        },
{
    if kernel_end >= MAX_KERNEL_MEMORY {
        Err(FrameError::InvalidSegment)
    } else {
        MemorySegment::new(kernel_end, MAX_KERNEL_MEMORY - kernel_end)
    }
}

/// Where the part of `area` that goes to the general frame allocator starts:
/// at `MAX_KERNEL_MEMORY` for an area that reaches across it, at the start of
/// the area otherwise.
pub open spec fn general_start(area: MemoryArea) -> int {
    if area.start <= MAX_KERNEL_MEMORY && area.end > MAX_KERNEL_MEMORY {
        MAX_KERNEL_MEMORY as int
    } else {
        area.start as int
    }
}

/// Where that part ends: at the last page boundary of the area.
pub open spec fn general_end(area: MemoryArea) -> int {
    align_down_spec(area.end as int, PAGE_SIZE as int)
}

/// What of `area` goes to the general frame allocator. An area that ends
/// below `MAX_KERNEL_MEMORY` gives nothing. Of the others, the part from
/// `general_start` up to `general_end` is the segment; where that part is
/// empty or its end lies below its start, there is no valid segment.
pub fn general_memory_segment(area: MemoryArea) -> (segment: Result<
    Option<MemorySegment>,
    FrameError,
>)
    ensures
        match segment {
            Ok(None) => area.end < MAX_KERNEL_MEMORY,
            Ok(Some(s)) => {
                &&& area.end >= MAX_KERNEL_MEMORY
                &&& general_start(area) < general_end(area)
                &&& s@ == (Span {
                    base: general_start(area),
                    length: general_end(area) - general_start(area),
                })
            },
            Err(e) => {
                &&& e == FrameError::InvalidSegment
                &&& area.end >= MAX_KERNEL_MEMORY
                &&& general_start(area) >= general_end(area)
            },
        },
{
    let mut seg_start: u64 = area.start;
    let seg_end: u64 = crate::memory::align_down(area.end, PAGE_SIZE);
    if area.end < MAX_KERNEL_MEMORY {
        return Ok(None);
    } else if seg_start <= MAX_KERNEL_MEMORY && area.end > MAX_KERNEL_MEMORY {
        seg_start = MAX_KERNEL_MEMORY;
    }
    if seg_end <= seg_start {
        return Err(FrameError::InvalidSegment);
    }
    match MemorySegment::new(seg_start, seg_end - seg_start) {
        Ok(s) => Ok(Some(s)),
        Err(e) => Err(e),
    }
}

/// How far the map of physical memory reaches when physical memory ends at
/// `max_phys_mem`: up to `MIN_PHYSMAP` where memory ends below that, and
/// else up to the end of memory, rounded up to a large page.
pub fn physmap_limit(max_phys_mem: u64) -> (limit: u64)
    requires
        align_up_spec(max_phys_mem as int, LARGE_PAGE_SIZE as int) <= u64::MAX,
    ensures
        limit == if max_phys_mem < MIN_PHYSMAP {
            MIN_PHYSMAP as int
        } else {
            align_up_spec(max_phys_mem as int, LARGE_PAGE_SIZE as int)
        },
{
    if max_phys_mem < MIN_PHYSMAP {
        MIN_PHYSMAP
    } else {
        proof {
            lemma_pow2_values();
        }
        x86_64::align_up(max_phys_mem, LARGE_PAGE_SIZE)
    }
}

/// Physical memory below this address is reachable at its own address while
/// the map of physical memory is built.
pub const IDENTITY_MAPPED: u64 = 0x200_0000;

/// Whether the frame at `saved`, taken from the general frame allocator,
/// can hold a table of the map of physical memory while the map has grown up
/// to `mapped` only: the frame must lie below `mapped`, where it can be
/// written. Where it cannot, a frame of the early allocator serves.
pub fn saved_frame_serves(saved: u64, mapped: u64) -> (serves: bool)
    ensures
        serves == (saved < mapped),
{
    saved < mapped
}

/// The address at which the table at physical address `table` is written
/// while the map of physical memory is built: its own address below
/// `IDENTITY_MAPPED`, its place in the map, which starts at `physmap_base`,
/// from there on.
pub fn table_address(table: u64, physmap_base: u64) -> (address: u64)
    requires
        table >= IDENTITY_MAPPED ==> table + physmap_base <= u64::MAX,
    ensures
        address == if table < IDENTITY_MAPPED {
            table as int
        } else {
            table + physmap_base
        },
{
    if table < IDENTITY_MAPPED {
        table
    } else {
        table + physmap_base
    }
}

/// Number of frames that the stack of an application processor takes.
pub const AP_STACK_FRAMES: usize = 4;

/// The address in the kernel image's part of the address space at which the
/// physical address `physical` is found.
pub fn kernel_virtual_address(physical: u64) -> (address: u64)
    requires
        physical < 0x8000_0000,
    ensures
        address == KERNEL_TEXT_BASE + physical,
{
    KERNEL_TEXT_BASE + physical
}

/// Takes the frames for the stack of an application processor and returns
/// the last of them, above which the stack starts. Where the frames do not
/// suffice, the ones taken are lost.
pub fn ap_stack_frame(frames: &mut PhysicalFrameAllocator) -> (top: Result<Frame, FrameError>)
    requires
        old(frames).wf(),
    ensures
        final(frames).wf(),
        final(frames)@ == after_allocations(old(frames)@, AP_STACK_FRAMES as nat),
        match top {
            Ok(frame) => {
                &&& can_allocate(old(frames)@, AP_STACK_FRAMES as nat)
                &&& next_frame(after_allocations(old(frames)@, (AP_STACK_FRAMES - 1) as nat))
                    == Some(frame.start())
            },
            Err(e) => e == FrameError::FrameExhausted && !can_allocate(
                old(frames)@,
                AP_STACK_FRAMES as nat,
            ),
        },
{
    let ghost supply = frames@;
    let mut taken: usize = 0;
    while taken < AP_STACK_FRAMES - 1
        invariant
            taken <= AP_STACK_FRAMES - 1,
            frames.wf(),
            supply == old(frames)@,
            can_allocate(supply, taken as nat),
            frames@ == after_allocations(supply, taken as nat),
        decreases AP_STACK_FRAMES - 1 - taken,
    {
        proof {
            lemma_one_more_allocation(supply, taken as nat);
        }
        match frames.allocate_frame() {
            Ok(_) => {},
            Err(e) => {
                proof {
                    lemma_rest_fails(supply, taken as nat, AP_STACK_FRAMES as nat);
                }
                return Err(e);
            },
        }
        taken = taken + 1;
    }
    proof {
        lemma_one_more_allocation(supply, taken as nat);
    }
    frames.allocate_frame()
}

/// The end of the heap's window: the heap starts at `base` and gets as much
/// address space as there is free memory, `total_memory` bytes, but none from
/// `top` on.
pub fn heap_window_end(base: u64, top: u64, total_memory: u64) -> (end: u64)
    ensures
        end == if base + total_memory < top {
            base + total_memory
        } else {
            top as int
        },
{
    let reach: u64 = base.saturating_add(total_memory);
    if top < reach {
        top
    } else {
        reach
    }
}

} // verus!
