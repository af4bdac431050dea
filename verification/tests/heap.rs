use kern::memory::allocator::bin::{first_aligned_piece, Allocator};
use kern::memory::allocator::model::AllocError;
use kern::memory::frame_allocator::{Frame, PhysicalFrameAllocator};
use kern::memory::paging::{LoggedMapper, MapFailure, MapFlags, PageMapper};
use kern::memory::PAGE_SIZE;

const HEAP: u64 = 0x4000_0000;
const RAM: u64 = 0x10_0000;

/// Records what it is asked to map, and refuses from the `limit`-th request on.
struct Recorder {
    mapped: Vec<(u64, u64, MapFlags)>,
    limit: usize,
}

impl PageMapper for Recorder {
    fn map(&mut self, page: u64, frame: Frame, flags: MapFlags) -> Result<(), MapFailure> {
        if self.mapped.len() >= self.limit {
            return Err(MapFailure {});
        }
        self.mapped.push((page, frame.start_address(), flags));
        Ok(())
    }
}

fn accepting() -> LoggedMapper<Recorder> {
    LoggedMapper::new(Recorder { mapped: Vec::new(), limit: usize::MAX })
}

fn refusing_after(limit: usize) -> LoggedMapper<Recorder> {
    LoggedMapper::new(Recorder { mapped: Vec::new(), limit })
}

fn pages(mapper: &LoggedMapper<Recorder>) -> Vec<u64> {
    mapper.mapper().mapped.iter().map(|entry| entry.0).collect()
}

fn frames_with(pages: u64) -> PhysicalFrameAllocator {
    let mut frames = PhysicalFrameAllocator::new();
    if pages > 0 {
        frames.add_segment(RAM, pages * PAGE_SIZE).unwrap();
    }
    frames
}

fn counts(heap: &Allocator) -> Vec<usize> {
    heap.report().chunk_counts
}

#[test]
fn new_heap_is_empty() {
    let heap = Allocator::new(HEAP, HEAP + 0x10000);
    assert_eq!(heap.block_start(), HEAP);
    assert_eq!(heap.block_current(), HEAP);
    assert_eq!(heap.block_end(), HEAP + 0x10000);
    let report = heap.report();
    assert_eq!(report.block_start, HEAP);
    assert_eq!(report.block_current, HEAP);
    assert_eq!(report.block_end, HEAP + 0x10000);
    assert_eq!(report.chunk_counts, vec![0usize; 30]);
}

#[test]
fn first_allocation_is_carved_at_the_frontier() {
    let mut heap = Allocator::new(HEAP, HEAP + 0x10000);
    let mut frames = frames_with(4);
    let mut mapper = accepting();
    let p = heap.allocate(&mut frames, &mut mapper, 64, 8).unwrap();
    assert_eq!(p, HEAP);
    assert_eq!(heap.block_current(), HEAP + 64);
    assert_eq!(frames.free_space(), 3 * PAGE_SIZE);
    assert_eq!(
        mapper.mapper().mapped,
        vec![(HEAP, RAM, MapFlags { present: true, writable: true })]
    );
    assert_eq!(counts(&heap), vec![0usize; 30]);
}

#[test]
fn frontier_advances_by_the_chunk_size() {
    let mut heap = Allocator::new(HEAP, HEAP + 0x10000);
    let mut frames = frames_with(4);
    let mut mapper = accepting();
    assert_eq!(heap.allocate(&mut frames, &mut mapper, 8, 8), Ok(HEAP));
    assert_eq!(heap.block_current(), HEAP + 8);
    assert_eq!(heap.allocate(&mut frames, &mut mapper, 5, 1), Ok(HEAP + 8));
    assert_eq!(heap.block_current(), HEAP + 16);
    // Twenty bytes take a chunk of thirty-two.
    assert_eq!(heap.allocate(&mut frames, &mut mapper, 20, 16), Ok(HEAP + 16));
    assert_eq!(heap.block_current(), HEAP + 48);
    // All three lie in the first page, which was mapped once.
    assert_eq!(pages(&mapper), vec![HEAP]);
    assert_eq!(frames.free_space(), 3 * PAGE_SIZE);
}

#[test]
fn second_small_block_fits_a_window_of_one_page() {
    let mut heap = Allocator::new(0x10000, 0x11000);
    let mut frames = frames_with(1);
    let mut mapper = accepting();
    assert_eq!(heap.allocate(&mut frames, &mut mapper, 16, 8), Ok(0x10000));
    assert_eq!(heap.allocate(&mut frames, &mut mapper, 16, 8), Ok(0x10010));
    assert_eq!(pages(&mapper), vec![0x10000]);
    assert_eq!(frames.free_space(), 0);
}

#[test]
fn growth_reaches_a_window_end_that_is_no_page_boundary() {
    let mut heap = Allocator::new(0x10000, 0x10018);
    let mut frames = frames_with(1);
    let mut mapper = accepting();
    assert_eq!(heap.allocate(&mut frames, &mut mapper, 16, 8), Ok(0x10000));
    assert_eq!(heap.allocate(&mut frames, &mut mapper, 8, 8), Ok(0x10010));
    assert_eq!(heap.block_current(), 0x10018);
    assert_eq!(heap.allocate(&mut frames, &mut mapper, 8, 8), Err(AllocError::HeapExhausted));
    assert_eq!(heap.block_current(), 0x10018);
}

#[test]
fn window_that_starts_inside_a_page_maps_that_page() {
    let mut heap = Allocator::new(HEAP + 0x10, HEAP + 0x3000);
    let mut frames = frames_with(4);
    let mut mapper = accepting();
    assert_eq!(heap.allocate(&mut frames, &mut mapper, 16, 16), Ok(HEAP + 0x10));
    assert_eq!(pages(&mapper), vec![HEAP]);
    // The next chunk crosses into the second page; the first is not mapped again.
    assert_eq!(heap.allocate(&mut frames, &mut mapper, 4096, 32), Ok(HEAP + 0x20));
    assert_eq!(heap.block_current(), HEAP + 0x1020);
    assert_eq!(pages(&mapper), vec![HEAP, HEAP + 0x1000]);
    assert_eq!(frames.free_space(), 2 * PAGE_SIZE);
}

#[test]
fn growth_maps_every_new_page_in_rising_order() {
    let mut heap = Allocator::new(HEAP, HEAP + 0x10000);
    let mut frames = frames_with(8);
    let mut mapper = accepting();
    let p = heap.allocate(&mut frames, &mut mapper, 3 * PAGE_SIZE, 8).unwrap();
    assert_eq!(p, HEAP);
    // Three pages are asked for; the chunk of the bin is four pages long.
    assert_eq!(heap.block_current(), HEAP + 4 * PAGE_SIZE);
    let flags = MapFlags::present_writable();
    assert_eq!(
        mapper.mapper().mapped,
        vec![
            (HEAP, RAM, flags),
            (HEAP + PAGE_SIZE, RAM + PAGE_SIZE, flags),
            (HEAP + 2 * PAGE_SIZE, RAM + 2 * PAGE_SIZE, flags),
            (HEAP + 3 * PAGE_SIZE, RAM + 3 * PAGE_SIZE, flags),
        ]
    );
    assert_eq!(frames.free_space(), 4 * PAGE_SIZE);
    // The frontier stands on a page boundary: the next page is new.
    assert_eq!(heap.allocate(&mut frames, &mut mapper, 8, 8), Ok(HEAP + 4 * PAGE_SIZE));
    assert_eq!(mapper.mapper().mapped.len(), 5);
    assert_eq!(mapper.mapper().mapped[4], (HEAP + 4 * PAGE_SIZE, RAM + 4 * PAGE_SIZE, flags));
}

#[test]
fn freed_block_is_reused_first() {
    let mut heap = Allocator::new(HEAP, HEAP + 0x10000);
    let mut frames = frames_with(4);
    let mut mapper = accepting();
    let p = heap.allocate(&mut frames, &mut mapper, 64, 8).unwrap();
    heap.dealloc(p, 64);
    let left = frames.free_space();
    let again = heap.allocate(&mut frames, &mut mapper, 64, 8).unwrap();
    assert_eq!(again, p);
    assert_eq!(frames.free_space(), left);
    assert_eq!(mapper.mapper().mapped.len(), 1);
    assert_eq!(heap.block_current(), HEAP + 64);
}

#[test]
fn most_recently_freed_block_comes_first() {
    let mut heap = Allocator::new(HEAP, HEAP + 0x10000);
    let mut frames = frames_with(4);
    let mut mapper = accepting();
    let a = heap.allocate(&mut frames, &mut mapper, 64, 8).unwrap();
    let b = heap.allocate(&mut frames, &mut mapper, 64, 8).unwrap();
    let c = heap.allocate(&mut frames, &mut mapper, 64, 8).unwrap();
    assert_eq!((a, b, c), (HEAP, HEAP + 64, HEAP + 128));
    heap.dealloc(a, 64);
    heap.dealloc(c, 64);
    heap.dealloc(b, 64);
    assert_eq!(counts(&heap)[3], 3);
    assert_eq!(heap.allocate(&mut frames, &mut mapper, 64, 8), Ok(b));
    assert_eq!(heap.allocate(&mut frames, &mut mapper, 64, 8), Ok(c));
    assert_eq!(heap.allocate(&mut frames, &mut mapper, 64, 8), Ok(a));
    assert_eq!(counts(&heap)[3], 0);
}

#[test]
fn bin_scan_skips_chunks_that_are_not_aligned() {
    let mut heap = Allocator::new(HEAP, HEAP + 0x10000);
    let mut frames = frames_with(0);
    let mut mapper = accepting();
    heap.dealloc(HEAP + 0x100, 64);
    heap.dealloc(HEAP + 0x40, 64);
    heap.dealloc(HEAP + 0x80, 64);
    assert!(heap.has_aligned_chunk(3, 256));
    assert!(!heap.has_aligned_chunk(3, 512));
    assert!(!heap.has_aligned_chunk(2, 8));
    assert_eq!(heap.allocate(&mut frames, &mut mapper, 64, 256), Ok(HEAP + 0x100));
    assert_eq!(heap.allocate(&mut frames, &mut mapper, 64, 64), Ok(HEAP + 0x80));
    assert_eq!(heap.allocate(&mut frames, &mut mapper, 33, 1), Ok(HEAP + 0x40));
    assert!(mapper.mapper().mapped.is_empty());
}

#[test]
fn alloc_from_bin_takes_and_reports_absence() {
    let mut heap = Allocator::new(HEAP, HEAP + 0x10000);
    assert_eq!(heap.alloc_from_bin(3, 8), None);
    heap.dealloc(HEAP + 0x48, 64);
    assert_eq!(heap.alloc_from_bin(3, 16), None);
    assert_eq!(counts(&heap)[3], 1);
    assert_eq!(heap.alloc_from_bin(3, 8), Some(HEAP + 0x48));
    assert_eq!(counts(&heap)[3], 0);
}

#[test]
fn alloc_from_block_carves_without_looking_at_the_bins() {
    let mut heap = Allocator::new(0x10000, 0x20000);
    let mut frames = PhysicalFrameAllocator::new();
    frames.add_segment(0x100000, 4096).unwrap();
    let mut mapper = accepting();
    heap.dealloc(0x18000, 4096);
    assert_eq!(heap.alloc_from_block(&mut frames, &mut mapper, 9, 4096), Ok(0x10000));
    assert_eq!(heap.block_current(), 0x11000);
    assert_eq!(
        mapper.mapper().mapped,
        vec![(0x10000, 0x100000, MapFlags { present: true, writable: true })]
    );
    // The only frame is gone: the next growth maps nothing and moves nothing.
    assert_eq!(
        heap.alloc_from_block(&mut frames, &mut mapper, 9, 4096),
        Err(AllocError::HeapExhausted)
    );
    assert_eq!(heap.block_current(), 0x11000);
    assert_eq!(mapper.mapper().mapped.len(), 1);
    assert_eq!(counts(&heap)[9], 1);
}

#[test]
fn alloc_from_block_without_room_asks_for_nothing() {
    let mut heap = Allocator::new(0x10000, 0x10800);
    let mut frames = frames_with(2);
    let mut mapper = accepting();
    assert_eq!(
        heap.alloc_from_block(&mut frames, &mut mapper, 9, 8),
        Err(AllocError::HeapExhausted)
    );
    assert_eq!(frames.free_space(), 2 * PAGE_SIZE);
    assert!(mapper.mapper().mapped.is_empty());
    assert_eq!(heap.block_current(), 0x10000);
    let mut high = Allocator::new(u64::MAX - 0x20, u64::MAX);
    assert_eq!(
        high.alloc_from_block(&mut frames, &mut mapper, 3, 8),
        Err(AllocError::HeapExhausted)
    );
    assert!(mapper.mapper().mapped.is_empty());
}

#[test]
fn dealloc_files_the_block_under_the_bin_of_its_size() {
    let mut heap = Allocator::new(HEAP, HEAP + 0x10000);
    heap.dealloc(HEAP, 1);
    heap.dealloc(HEAP + 8, 8);
    heap.dealloc(HEAP + 16, 9);
    heap.dealloc(HEAP + 0x1000, 4096);
    heap.dealloc(HEAP + 0x2000, 4097);
    let found = counts(&heap);
    assert_eq!(found[0], 2);
    assert_eq!(found[1], 1);
    assert_eq!(found[9], 1);
    assert_eq!(found[10], 1);
    assert_eq!(found.iter().sum::<usize>(), 5);
}

#[test]
fn oversize_request_is_refused() {
    let mut heap = Allocator::new(HEAP, HEAP + 0x10000);
    let mut frames = frames_with(4);
    let mut mapper = accepting();
    assert!(heap.admits((1u64 << 32) + 1, 8));
    let result = heap.allocate(&mut frames, &mut mapper, (1u64 << 32) + 1, 8);
    assert_eq!(result, Err(AllocError::OversizeRequest));
    assert_eq!(heap.block_current(), HEAP);
    assert_eq!(frames.free_space(), 4 * PAGE_SIZE);
    assert!(mapper.mapper().mapped.is_empty());
}

#[test]
fn heap_is_exhausted_when_the_window_is_full() {
    let mut heap = Allocator::new(HEAP, HEAP + 16);
    let mut frames = frames_with(4);
    let mut mapper = accepting();
    assert_eq!(heap.allocate(&mut frames, &mut mapper, 16, 8), Ok(HEAP));
    assert_eq!(heap.allocate(&mut frames, &mut mapper, 16, 8), Err(AllocError::HeapExhausted));
    assert_eq!(heap.block_current(), HEAP + 16);
    assert_eq!(frames.free_space(), 3 * PAGE_SIZE);
    assert_eq!(mapper.mapper().mapped.len(), 1);
}

#[test]
fn heap_is_exhausted_when_frames_run_out() {
    let mut heap = Allocator::new(HEAP, HEAP + 0x10000);
    let mut frames = frames_with(1);
    let mut mapper = accepting();
    let result = heap.allocate(&mut frames, &mut mapper, 2 * PAGE_SIZE, 8);
    assert_eq!(result, Err(AllocError::HeapExhausted));
    // The frontier has not moved, the frame that was taken is lost, and the
    // page that it went to stays mapped.
    assert_eq!(heap.block_current(), HEAP);
    assert_eq!(frames.free_space(), 0);
    assert_eq!(pages(&mapper), vec![HEAP]);
    assert_eq!(counts(&heap), vec![0usize; 30]);
    // A second try starts from the same heap, and asks for the same pages.
    frames.add_segment(RAM + 0x10_0000, 2 * PAGE_SIZE).unwrap();
    assert_eq!(heap.allocate(&mut frames, &mut mapper, 2 * PAGE_SIZE, 8), Ok(HEAP));
    assert_eq!(pages(&mapper), vec![HEAP, HEAP, HEAP + PAGE_SIZE]);
}

#[test]
fn map_failure_ends_the_allocation() {
    let mut heap = Allocator::new(HEAP, HEAP + 0x10000);
    let mut frames = frames_with(4);
    let mut mapper = refusing_after(1);
    let result = heap.allocate(&mut frames, &mut mapper, 2 * PAGE_SIZE, 8);
    assert_eq!(result, Err(AllocError::MapFailure { page: HEAP + PAGE_SIZE }));
    assert_eq!(heap.block_current(), HEAP);
    assert_eq!(frames.free_space(), 2 * PAGE_SIZE);
    assert_eq!(counts(&heap), vec![0usize; 30]);
    assert_eq!(pages(&mapper), vec![HEAP]);
}

#[test]
fn map_failure_does_not_fall_back_to_splitting() {
    let mut heap = Allocator::new(HEAP, HEAP + 0x10000);
    let mut frames = frames_with(4);
    let mut mapper = accepting();
    let big = heap.allocate(&mut frames, &mut mapper, 8192, 8).unwrap();
    heap.dealloc(big, 8192);
    let mut refusing = refusing_after(0);
    let result = heap.allocate(&mut frames, &mut refusing, 4096, 8);
    assert_eq!(result, Err(AllocError::MapFailure { page: HEAP + 2 * PAGE_SIZE }));
    assert_eq!(counts(&heap)[10], 1);
    assert_eq!(counts(&heap)[9], 0);
}

#[test]
fn larger_chunk_is_split_when_the_frontier_cannot_grow() {
    let mut heap = Allocator::new(HEAP, HEAP + 2 * PAGE_SIZE);
    let mut frames = frames_with(3);
    let mut mapper = accepting();
    let a = heap.allocate(&mut frames, &mut mapper, 8192, 8).unwrap();
    assert_eq!(a, HEAP);
    heap.dealloc(a, 8192);
    assert_eq!(counts(&heap)[9], 0);
    assert_eq!(counts(&heap)[10], 1);
    assert_eq!(frames.free_space(), PAGE_SIZE);

    let first = heap.allocate(&mut frames, &mut mapper, 4096, 8).unwrap();
    assert_eq!(first, a);
    assert_eq!(counts(&heap)[9], 1);
    assert_eq!(counts(&heap)[10], 0);

    let second = heap.allocate(&mut frames, &mut mapper, 4096, 8).unwrap();
    assert_eq!(second, a + 4096);
    assert_eq!(counts(&heap)[9], 0);
    assert_eq!(frames.free_space(), PAGE_SIZE);
    assert_eq!(mapper.mapper().mapped.len(), 2);
    assert_eq!(heap.block_current(), HEAP + 2 * PAGE_SIZE);

    assert_eq!(heap.allocate(&mut frames, &mut mapper, 4096, 8), Err(AllocError::HeapExhausted));
}

#[test]
fn split_hands_out_the_lowest_aligned_piece() {
    let mut heap = Allocator::new(HEAP, HEAP);
    let mut frames = frames_with(0);
    let mut mapper = accepting();
    // A chunk of 64 bytes that starts 16 bytes after a multiple of 32.
    heap.dealloc(HEAP + 0x10, 64);
    let p = heap.allocate(&mut frames, &mut mapper, 16, 32).unwrap();
    assert_eq!(p, HEAP + 0x20);
    // The other three pieces are in the bin of 16 bytes, the highest on top.
    assert_eq!(counts(&heap)[1], 3);
    assert_eq!(counts(&heap)[3], 0);
    assert_eq!(heap.allocate(&mut frames, &mut mapper, 16, 8), Ok(HEAP + 0x40));
    assert_eq!(heap.allocate(&mut frames, &mut mapper, 16, 8), Ok(HEAP + 0x30));
    assert_eq!(heap.allocate(&mut frames, &mut mapper, 16, 8), Ok(HEAP + 0x10));
    assert_eq!(heap.allocate(&mut frames, &mut mapper, 16, 8), Err(AllocError::HeapExhausted));
}

#[test]
fn split_takes_the_lowest_bin_that_has_a_fitting_chunk() {
    let mut heap = Allocator::new(HEAP, HEAP);
    let mut frames = frames_with(0);
    let mut mapper = accepting();
    heap.dealloc(HEAP + 0x1000, 128);
    heap.dealloc(HEAP + 0x2000, 32);
    heap.dealloc(HEAP + 0x3000, 32);
    let p = heap.allocate(&mut frames, &mut mapper, 16, 8).unwrap();
    // The most recent chunk of the bin of 32 bytes is split.
    assert_eq!(p, HEAP + 0x3000);
    assert_eq!(counts(&heap)[1], 1);
    assert_eq!(counts(&heap)[2], 1);
    assert_eq!(counts(&heap)[4], 1);
}

#[test]
fn split_skips_chunks_without_an_aligned_piece() {
    let mut heap = Allocator::new(HEAP, HEAP);
    let mut frames = frames_with(0);
    let mut mapper = accepting();
    heap.dealloc(HEAP + 0x100, 32);
    heap.dealloc(HEAP + 0x208, 32);
    // No piece of the chunk at 0x208 is a multiple of 16; the older chunk is split.
    assert_eq!(heap.allocate(&mut frames, &mut mapper, 16, 16), Ok(HEAP + 0x100));
    assert_eq!(counts(&heap)[2], 1);
    assert_eq!(counts(&heap)[1], 1);
}

#[test]
fn chunk_of_the_last_bin_is_split_too() {
    let mut heap = Allocator::new(HEAP, HEAP);
    let mut frames = frames_with(0);
    let mut mapper = accepting();
    heap.dealloc(0x1_0000_0000, 1u64 << 32);
    assert_eq!(counts(&heap)[29], 1);
    assert_eq!(heap.allocate(&mut frames, &mut mapper, 1u64 << 31, 8), Ok(0x1_0000_0000));
    assert_eq!(counts(&heap)[29], 0);
    assert_eq!(counts(&heap)[28], 1);
    assert_eq!(heap.allocate(&mut frames, &mut mapper, 1u64 << 31, 8), Ok(0x1_8000_0000));
    assert_eq!(
        heap.allocate(&mut frames, &mut mapper, 1u64 << 31, 8),
        Err(AllocError::HeapExhausted)
    );
}

#[test]
fn request_of_the_last_bin_has_nothing_to_split() {
    let mut heap = Allocator::new(HEAP, HEAP);
    let mut frames = frames_with(0);
    let mut mapper = accepting();
    heap.dealloc(0x2_0000_0000, 1u64 << 31);
    assert_eq!(
        heap.allocate(&mut frames, &mut mapper, 1u64 << 32, 8),
        Err(AllocError::HeapExhausted)
    );
    assert_eq!(counts(&heap)[28], 1);
}

#[test]
fn alloc_by_split_reports_exhaustion_on_an_empty_heap() {
    let mut heap = Allocator::new(HEAP, HEAP + 0x10000);
    assert_eq!(heap.alloc_by_split(0, 8), Err(AllocError::HeapExhausted));
    assert_eq!(heap.alloc_by_split(29, 8), Err(AllocError::HeapExhausted));
}

#[test]
fn break_up_chunk_adds_every_piece() {
    let mut heap = Allocator::new(HEAP, HEAP + 0x10000);
    heap.break_up_chunk(HEAP + 0x100, 64, 1);
    assert_eq!(counts(&heap)[1], 4);
    assert_eq!(heap.alloc_from_bin(1, 8), Some(HEAP + 0x130));
    assert_eq!(heap.alloc_from_bin(1, 8), Some(HEAP + 0x120));
    assert_eq!(heap.alloc_from_bin(1, 8), Some(HEAP + 0x110));
    assert_eq!(heap.alloc_from_bin(1, 8), Some(HEAP + 0x100));
    assert_eq!(heap.alloc_from_bin(1, 8), None);
}

#[test]
fn first_aligned_piece_finds_the_lowest() {
    assert_eq!(first_aligned_piece(0x1000, 10, 9, 8), Some(0));
    assert_eq!(first_aligned_piece(0x1000, 10, 9, 0x2000), Some(1));
    assert_eq!(first_aligned_piece(0x1010, 3, 1, 32), Some(1));
    assert_eq!(first_aligned_piece(0x1008, 3, 1, 16), None);
    assert_eq!(first_aligned_piece(0x1000, 10, 9, 0x4000), None);
    assert_eq!(first_aligned_piece(0x1000, 5, 5, 0x1000), Some(0));
}

#[test]
fn alignment_gap_becomes_a_free_chunk() {
    let mut heap = Allocator::new(HEAP + PAGE_SIZE, HEAP + 0x10000);
    let mut frames = frames_with(8);
    let mut mapper = accepting();
    assert!(heap.can_place_gap(0x2000));
    let p = heap.allocate(&mut frames, &mut mapper, 64, 0x2000).unwrap();
    assert_eq!(p, HEAP + 0x2000);
    assert_eq!(heap.block_current(), HEAP + 0x2040);
    // The page between the old frontier and the block is a chunk of 4096 bytes.
    assert_eq!(counts(&heap)[9], 1);
    assert_eq!(pages(&mapper), vec![HEAP + 0x1000, HEAP + 0x2000]);
    assert_eq!(heap.allocate(&mut frames, &mut mapper, 4096, 8), Ok(HEAP + 0x1000));
}

#[test]
fn small_alignment_gap_goes_to_a_small_bin() {
    let mut heap = Allocator::new(HEAP, HEAP + 0x10000);
    let mut frames = frames_with(2);
    let mut mapper = accepting();
    assert_eq!(heap.allocate(&mut frames, &mut mapper, 8, 8), Ok(HEAP));
    assert!(heap.admits(16, 16));
    assert_eq!(heap.allocate(&mut frames, &mut mapper, 16, 16), Ok(HEAP + 16));
    assert_eq!(counts(&heap)[0], 1);
    assert_eq!(heap.block_current(), HEAP + 32);
    assert_eq!(heap.allocate(&mut frames, &mut mapper, 8, 8), Ok(HEAP + 8));
    assert_eq!(heap.allocate(&mut frames, &mut mapper, 64, 64), Ok(HEAP + 64));
    assert_eq!(counts(&heap)[2], 1);
    assert_eq!(heap.allocate(&mut frames, &mut mapper, 32, 8), Ok(HEAP + 32));
}

#[test]
fn can_place_gap_tells_bin_sizes_from_other_gaps() {
    let heap = Allocator::new(HEAP + PAGE_SIZE, HEAP + 0x10000);
    assert!(heap.can_place_gap(8));
    assert!(heap.can_place_gap(0x1000));
    assert!(heap.can_place_gap(0x2000));
    // Up to the next multiple of 0x4000 there are 0x3000 bytes: no bin's size.
    assert!(!heap.can_place_gap(0x4000));
    let aligned = Allocator::new(HEAP, HEAP + 0x10000);
    assert!(aligned.can_place_gap(0x4000));
    assert!(aligned.can_place_gap(0x4000_0000));
    let odd = Allocator::new(HEAP + 8, HEAP + 0x10000);
    assert!(odd.can_place_gap(16));
    assert!(!odd.can_place_gap(64));
}

#[test]
fn admits_looks_at_the_bin_before_the_gap() {
    let mut heap = Allocator::new(HEAP + 8, HEAP + 0x10000);
    // Up to the next multiple of 64 there are 56 bytes, which no bin holds.
    assert!(!heap.admits(64, 64));
    assert!(heap.admits(64, 8));
    assert!(heap.admits(u64::MAX, 64));
    // With an aligned chunk in the bin the frontier is not reached.
    heap.dealloc(HEAP + 0x40, 64);
    assert!(heap.admits(64, 64));
    assert!(!heap.admits(128, 64));
    let mut frames = frames_with(1);
    let mut mapper = accepting();
    assert_eq!(heap.allocate(&mut frames, &mut mapper, 64, 64), Ok(HEAP + 0x40));
    assert!(!heap.admits(64, 64));
}

#[test]
fn allocations_are_aligned_and_inside_the_window() {
    let mut heap = Allocator::new(HEAP, HEAP + 0x40000);
    let mut frames = frames_with(64);
    let mut mapper = accepting();
    let requests: [(u64, u64); 10] = [
        (1, 1),
        (24, 8),
        (100, 64),
        (24, 8),
        (100, 64),
        (4096, 4096),
        (5000, 16),
        (17, 2),
        (8, 8),
        (300, 256),
    ];
    let mut served = 0;
    for (size, align) in requests {
        if !heap.admits(size, align) {
            continue;
        }
        let p = heap.allocate(&mut frames, &mut mapper, size, align).unwrap();
        assert_eq!(p % align, 0);
        assert!(heap.block_start() <= p && p + size <= heap.block_end());
        served += 1;
    }
    assert!(served >= 6);
}

#[test]
fn live_blocks_never_overlap() {
    let mut heap = Allocator::new(HEAP, HEAP + 0x20000);
    let mut frames = frames_with(16);
    let mut mapper = accepting();
    let mut live: Vec<(u64, u64)> = Vec::new();
    let sizes: [u64; 10] = [64, 4096, 8192, 16, 64, 2048, 4096, 8, 1024, 64];
    for round in 0..40usize {
        let size = sizes[round % sizes.len()];
        if round % 3 == 2 && !live.is_empty() {
            let (address, freed_size) = live.remove(round % live.len());
            heap.dealloc(address, freed_size);
        }
        assert!(heap.admits(size, 8));
        if let Ok(address) = heap.allocate(&mut frames, &mut mapper, size, 8) {
            for (other, other_size) in live.iter() {
                assert!(address + size <= *other || *other + *other_size <= address);
            }
            live.push((address, size));
        }
    }
    assert!(live.len() > 4);
    // No page was mapped twice.
    let mut seen = pages(&mapper);
    seen.sort();
    seen.dedup();
    assert_eq!(seen.len(), mapper.mapper().mapped.len());
}

#[test]
fn frontier_never_moves_down() {
    let mut heap = Allocator::new(HEAP, HEAP + 0x8000);
    let mut frames = frames_with(4);
    let mut mapper = accepting();
    let mut previous = heap.block_current();
    for size in [8u64, 5000, 64, 4096, 16, 9000] {
        if let Ok(address) = heap.allocate(&mut frames, &mut mapper, size, 8) {
            heap.dealloc(address, size);
        }
        assert!(heap.block_current() >= previous);
        previous = heap.block_current();
    }
}

#[test]
fn logged_mapper_gives_the_mapper_back() {
    let mut mapper = accepting();
    let mut frames = frames_with(1);
    let frame = frames.allocate_frame().unwrap();
    assert_eq!(mapper.map(HEAP, frame, MapFlags::present_writable()), Ok(()));
    let recorder = mapper.into_mapper();
    assert_eq!(recorder.mapped, vec![(HEAP, RAM, MapFlags::present_writable())]);
}
