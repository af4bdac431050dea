use kern::memory::frame_allocator::{FrameError, MemorySegment, PhysicalFrameAllocator};
use kern::memory::{align_down, align_up, checked_align_up, is_aligned, PAGE_SIZE};

#[test]
fn align_up_rounds_to_the_next_multiple() {
    assert_eq!(align_up(0, 4096), 0);
    assert_eq!(align_up(1, 4096), 4096);
    assert_eq!(align_up(4096, 4096), 4096);
    assert_eq!(align_up(4097, 4096), 8192);
    assert_eq!(align_up(13, 8), 16);
}

#[test]
fn align_down_rounds_to_the_previous_multiple() {
    assert_eq!(align_down(0, 4096), 0);
    assert_eq!(align_down(4095, 4096), 0);
    assert_eq!(align_down(4096, 4096), 4096);
    assert_eq!(align_down(8191, 4096), 4096);
    assert_eq!(align_down(13, 8), 8);
}

#[test]
fn checked_align_up_reports_overflow() {
    assert_eq!(checked_align_up(u64::MAX, 4096), None);
    assert_eq!(checked_align_up(u64::MAX - 4094, 4096), None);
    assert_eq!(checked_align_up(u64::MAX - 4095, 4096), Some(0xffff_ffff_ffff_f000));
    assert_eq!(checked_align_up(u64::MAX - 4096, 4096), Some(0xffff_ffff_ffff_f000));
    assert_eq!(checked_align_up(5, 4), Some(8));
}

#[test]
fn is_aligned_tests_divisibility() {
    assert!(is_aligned(0, 8));
    assert!(is_aligned(4096, 4096));
    assert!(!is_aligned(4100, 4096));
}

#[test]
fn segment_new_accepts_a_proper_range() {
    let segment = MemorySegment::new(0x1000, 0x2000).unwrap();
    assert_eq!(segment.base(), 0x1000);
    assert_eq!(segment.length(), 0x2000);
}

#[test]
fn segment_new_refuses_an_empty_range() {
    assert_eq!(MemorySegment::new(0x1000, 0).unwrap_err(), FrameError::InvalidSegment);
}

#[test]
fn segment_new_refuses_a_range_past_the_address_space() {
    assert_eq!(MemorySegment::new(u64::MAX, 1).unwrap_err(), FrameError::InvalidSegment);
    assert_eq!(MemorySegment::new(u64::MAX - 4095, 4096).unwrap_err(), FrameError::InvalidSegment);
    assert!(MemorySegment::new(u64::MAX - 4096, 4096).is_ok());
}

#[test]
fn new_allocator_has_no_memory() {
    let mut frames = PhysicalFrameAllocator::new();
    assert_eq!(frames.free_space(), 0);
    assert_eq!(frames.allocate_frame().unwrap_err(), FrameError::FrameExhausted);
}

#[test]
fn add_segment_refuses_invalid_ranges_and_changes_nothing() {
    let mut frames = PhysicalFrameAllocator::new();
    assert_eq!(frames.add_segment(0x1000, 0), Err(FrameError::InvalidSegment));
    assert_eq!(frames.add_segment(u64::MAX - 10, 4096), Err(FrameError::InvalidSegment));
    assert_eq!(frames.free_space(), 0);
    assert_eq!(frames.add_segment(0x1000, 0x3000), Ok(()));
    assert_eq!(frames.add_segment(0x9000, 0), Err(FrameError::InvalidSegment));
    assert_eq!(frames.free_space(), 0x3000);
}

#[test]
fn add_segment_increases_free_space() {
    let mut frames = PhysicalFrameAllocator::new();
    frames.add_segment(0x10_0000, 0x8000).unwrap();
    assert_eq!(frames.free_space(), 0x8000);
    frames.add_segment(0x40_0000, 0x1000).unwrap();
    assert_eq!(frames.free_space(), 0x9000);
}

#[test]
fn single_frame_segment_is_exhausted_after_one_frame() {
    let mut frames = PhysicalFrameAllocator::new();
    frames.add_segment(0x5000, PAGE_SIZE).unwrap();
    let frame = frames.allocate_frame().unwrap();
    assert_eq!(frame.start_address(), 0x5000);
    assert_eq!(frames.allocate_frame().unwrap_err(), FrameError::FrameExhausted);
    assert_eq!(frames.free_space(), 0);
}

#[test]
fn frames_come_lowest_first_within_a_segment() {
    let mut frames = PhysicalFrameAllocator::new();
    frames.add_segment(0x10_0000, 3 * PAGE_SIZE).unwrap();
    assert_eq!(frames.allocate_frame().unwrap().start_address(), 0x10_0000);
    assert_eq!(frames.free_space(), 2 * PAGE_SIZE);
    assert_eq!(frames.allocate_frame().unwrap().start_address(), 0x10_1000);
    assert_eq!(frames.free_space(), PAGE_SIZE);
    assert_eq!(frames.allocate_frame().unwrap().start_address(), 0x10_2000);
    assert_eq!(frames.free_space(), 0);
    assert!(frames.allocate_frame().is_err());
}

#[test]
fn segments_are_drained_in_registration_order() {
    let mut frames = PhysicalFrameAllocator::new();
    frames.add_segment(0x80_0000, 2 * PAGE_SIZE).unwrap();
    frames.add_segment(0x10_0000, PAGE_SIZE).unwrap();
    assert_eq!(frames.allocate_frame().unwrap().start_address(), 0x80_0000);
    assert_eq!(frames.allocate_frame().unwrap().start_address(), 0x80_1000);
    assert_eq!(frames.allocate_frame().unwrap().start_address(), 0x10_0000);
    assert!(frames.allocate_frame().is_err());
}

#[test]
fn frames_are_aligned_in_an_unaligned_segment() {
    let mut frames = PhysicalFrameAllocator::new();
    frames.add_segment(0x1234, 3 * PAGE_SIZE).unwrap();
    assert_eq!(frames.free_space(), 3 * PAGE_SIZE);
    let first = frames.allocate_frame().unwrap();
    assert_eq!(first.start_address(), 0x2000);
    assert_eq!(frames.free_space(), 0x1234 + 3 * PAGE_SIZE - 0x3000);
    let second = frames.allocate_frame().unwrap();
    assert_eq!(second.start_address(), 0x3000);
    assert_eq!(frames.free_space(), 0);
    assert!(frames.allocate_frame().is_err());
}

#[test]
fn segment_without_a_whole_frame_is_skipped_and_dropped() {
    let mut frames = PhysicalFrameAllocator::new();
    frames.add_segment(0x1800, 0x1000).unwrap();
    frames.add_segment(0x9000, PAGE_SIZE).unwrap();
    assert_eq!(frames.free_space(), 0x2000);
    assert_eq!(frames.allocate_frame().unwrap().start_address(), 0x9000);
    assert_eq!(frames.free_space(), 0);
}

#[test]
fn failed_allocation_drops_what_is_left() {
    let mut frames = PhysicalFrameAllocator::new();
    frames.add_segment(0x1800, 0x1000).unwrap();
    assert_eq!(frames.free_space(), 0x1000);
    assert_eq!(frames.allocate_frame().unwrap_err(), FrameError::FrameExhausted);
    assert_eq!(frames.free_space(), 0);
}

#[test]
fn free_space_never_grows_while_allocating() {
    let mut frames = PhysicalFrameAllocator::new();
    frames.add_segment(0x1010, 5 * PAGE_SIZE).unwrap();
    frames.add_segment(0x10_0000, 2 * PAGE_SIZE).unwrap();
    let mut previous = frames.free_space();
    while frames.allocate_frame().is_ok() {
        let now = frames.free_space();
        assert!(now + PAGE_SIZE <= previous);
        previous = now;
    }
    assert_eq!(frames.free_space(), 0);
}

#[test]
fn no_frame_is_handed_out_twice() {
    let mut frames = PhysicalFrameAllocator::new();
    frames.add_segment(0x1800, 0x3000).unwrap();
    frames.add_segment(0x10_0000, 4 * PAGE_SIZE).unwrap();
    frames.add_segment(0x5000, 2 * PAGE_SIZE + 17).unwrap();
    let mut seen: Vec<u64> = Vec::new();
    while let Ok(frame) = frames.allocate_frame() {
        let start = frame.start_address();
        assert_eq!(start % PAGE_SIZE, 0);
        for other in seen.iter() {
            assert!(start + PAGE_SIZE <= *other || *other + PAGE_SIZE <= start);
        }
        seen.push(start);
    }
    assert_eq!(seen, vec![0x2000, 0x3000, 0x10_0000, 0x10_1000, 0x10_2000, 0x10_3000, 0x5000, 0x6000]);
}
