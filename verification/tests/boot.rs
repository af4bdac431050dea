use kern::init::{
    general_memory_segment, heap_window_end, highest_address, kernel_physical_address,
    low_memory_segment, physmap_limit, MemoryArea, MAX_KERNEL_MEMORY,
};
use kern::memory::frame_allocator::FrameError;

#[test]
fn highest_address_is_the_largest_end() {
    assert_eq!(highest_address(&[]), 0);
    let areas = vec![
        MemoryArea { start: 0, end: 0x9fc00 },
        MemoryArea { start: 0x10_0000, end: 0x7fe_0000 },
        MemoryArea { start: 0xfffc_0000, end: 0x1_0000_0000 },
        MemoryArea { start: 0x10_0000, end: 0x20_0000 },
    ];
    assert_eq!(highest_address(&areas), 0x1_0000_0000);
    assert_eq!(highest_address(&[MemoryArea { start: 5, end: 7 }]), 7);
}

#[test]
fn kernel_physical_address_drops_the_base() {
    assert_eq!(kernel_physical_address(0xffff_ffff_8012_3456), 0x12_3456);
    assert_eq!(kernel_physical_address(0xffff_ffff_8000_0000), 0);
    assert_eq!(kernel_physical_address(0x0040_0000), 0x40_0000);
    assert_eq!(kernel_physical_address(0xffff_ffff_ffff_ffff), 0x7fff_ffff);
}

#[test]
fn low_memory_reaches_from_the_kernel_to_the_reserve() {
    let segment = low_memory_segment(0x40_0000).unwrap();
    assert_eq!(segment.base(), 0x40_0000);
    assert_eq!(segment.length(), 0xc0_0000);
    assert_eq!(low_memory_segment(MAX_KERNEL_MEMORY).unwrap_err(), FrameError::InvalidSegment);
    assert_eq!(low_memory_segment(MAX_KERNEL_MEMORY + 1).unwrap_err(), FrameError::InvalidSegment);
    assert_eq!(low_memory_segment(MAX_KERNEL_MEMORY - 1).unwrap().length(), 1);
}

#[test]
fn area_below_the_reserve_gives_nothing() {
    let area = MemoryArea { start: 0, end: 0x9fc00 };
    assert!(general_memory_segment(area).unwrap().is_none());
    let just_below = MemoryArea { start: 0x10_0000, end: MAX_KERNEL_MEMORY - 1 };
    assert!(general_memory_segment(just_below).unwrap().is_none());
}

#[test]
fn area_across_the_reserve_is_clipped() {
    let area = MemoryArea { start: 0x10_0000, end: 0x7fe_0123 };
    let segment = general_memory_segment(area).unwrap().unwrap();
    assert_eq!(segment.base(), MAX_KERNEL_MEMORY);
    assert_eq!(segment.length(), 0x7fe_0000 - MAX_KERNEL_MEMORY);
}

#[test]
fn area_above_the_reserve_is_taken_whole_pages_down() {
    let area = MemoryArea { start: 0x1_0000_0000, end: 0x1_4000_0fff };
    let segment = general_memory_segment(area).unwrap().unwrap();
    assert_eq!(segment.base(), 0x1_0000_0000);
    assert_eq!(segment.length(), 0x4000_0000);
}

#[test]
fn area_that_ends_at_the_reserve_keeps_its_start() {
    let area = MemoryArea { start: 0x10_0000, end: MAX_KERNEL_MEMORY };
    let segment = general_memory_segment(area).unwrap().unwrap();
    assert_eq!(segment.base(), 0x10_0000);
    assert_eq!(segment.length(), MAX_KERNEL_MEMORY - 0x10_0000);
}

#[test]
fn area_without_a_page_boundary_is_no_segment() {
    let inside_a_page = MemoryArea { start: 0x200_0100, end: 0x200_0200 };
    assert_eq!(general_memory_segment(inside_a_page), Err(FrameError::InvalidSegment));
    let ends_where_it_starts = MemoryArea { start: 0x200_0000, end: 0x200_0fff };
    assert_eq!(general_memory_segment(ends_where_it_starts), Err(FrameError::InvalidSegment));
}

#[test]
fn physmap_covers_four_gibibytes_at_least() {
    assert_eq!(physmap_limit(0), 0x1_0000_0000);
    assert_eq!(physmap_limit(0x7fe_0000), 0x1_0000_0000);
    assert_eq!(physmap_limit(0xffff_ffff), 0x1_0000_0000);
    assert_eq!(physmap_limit(0x1_0000_0000), 0x1_0000_0000);
}

#[test]
fn physmap_ends_on_a_large_page() {
    assert_eq!(physmap_limit(0x1_0000_0001), 0x1_0020_0000);
    assert_eq!(physmap_limit(0x2_4000_0000), 0x2_4000_0000);
    assert_eq!(physmap_limit(0x2_401f_ffff), 0x2_4020_0000);
}

#[test]
fn heap_window_is_as_large_as_free_memory_allows() {
    assert_eq!(heap_window_end(0x4000_0000, 0x8000_0000, 0x100_0000), 0x4100_0000);
    assert_eq!(heap_window_end(0x4000_0000, 0x8000_0000, 0x4000_0000), 0x8000_0000);
    assert_eq!(heap_window_end(0x4000_0000, 0x8000_0000, 0x1_0000_0000), 0x8000_0000);
    assert_eq!(heap_window_end(0x4000_0000, 0x8000_0000, 0), 0x4000_0000);
    assert_eq!(heap_window_end(u64::MAX - 5, u64::MAX, 100), u64::MAX);
}

#[test]
fn kernel_virtual_address_adds_the_base() {
    assert_eq!(kern::init::kernel_virtual_address(0), 0xffff_ffff_8000_0000);
    assert_eq!(kern::init::kernel_virtual_address(0x12_3000), 0xffff_ffff_8012_3000);
    assert_eq!(kern::init::kernel_virtual_address(0x7fff_ffff), 0xffff_ffff_ffff_ffff);
}

#[test]
fn ap_stack_is_the_fourth_frame() {
    let mut frames = kern::memory::frame_allocator::PhysicalFrameAllocator::new();
    frames.add_segment(0x40_0000, 6 * 4096).unwrap();
    let top = kern::init::ap_stack_frame(&mut frames).unwrap();
    assert_eq!(top.start_address(), 0x40_3000);
    assert_eq!(frames.free_space(), 2 * 4096);
    // Two frames are left: the next stack cannot be had, and they are lost.
    assert_eq!(kern::init::ap_stack_frame(&mut frames).unwrap_err(), FrameError::FrameExhausted);
    assert_eq!(frames.free_space(), 0);
}

#[test]
fn ap_stack_needs_exactly_four_frames() {
    let mut frames = kern::memory::frame_allocator::PhysicalFrameAllocator::new();
    frames.add_segment(0x40_0000, 3 * 4096).unwrap();
    frames.add_segment(0x80_0000, 4096).unwrap();
    assert_eq!(kern::init::ap_stack_frame(&mut frames).unwrap().start_address(), 0x80_0000);
    assert_eq!(frames.free_space(), 0);
}

#[test]
fn saved_frame_serves_below_what_is_mapped() {
    assert!(kern::init::saved_frame_serves(0x100_0000, 0x120_0000));
    assert!(!kern::init::saved_frame_serves(0x120_0000, 0x120_0000));
    assert!(!kern::init::saved_frame_serves(0x200_0000, 0));
}

#[test]
fn table_is_found_at_its_own_address_or_in_the_map() {
    let base = 0xffff_8000_0000_0000;
    assert_eq!(kern::init::table_address(0x1000, base), 0x1000);
    assert_eq!(kern::init::table_address(0x1ff_f000, base), 0x1ff_f000);
    assert_eq!(kern::init::table_address(0x200_0000, base), 0xffff_8000_0200_0000);
    assert_eq!(kern::init::table_address(0x1_0000_0000, base), 0xffff_8001_0000_0000);
}
