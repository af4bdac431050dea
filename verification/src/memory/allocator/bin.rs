//! A heap allocator with size classes.
//!
//! Bin `k` keeps the free chunks of `2^(k + 3)` bytes and serves the requests
//! of more than `2^(k + 2)` bytes, up to that size; bin 0 serves everything
//! up to 8 bytes. Memory comes from a window of virtual addresses: what lies
//! below the frontier is backed by frames, and the frontier moves up by the
//! size of each chunk that is carved from the untouched rest.
use vstd::prelude::*;
use crate::memory::{checked_align_up, lemma_align_up, PAGE_SIZE};
use crate::memory::allocator::model::{
    backing_log, child, child_count, children, chunk_size, first_aligned_child,
    first_aligned_child_from, lemma_child_count, lemma_chunk_size_bounds, lemma_first_split_bin,
    lemma_give_chunk_wf, lemma_give_pieces_wf, lemma_grown_wf, lemma_new_pages,
    lemma_newest_aligned, lemma_newest_splittable, lemma_take_chunk_wf, newest_aligned,
    newest_splittable, pieces, splittable, AllocError, HeapView,
};
use crate::memory::allocator::laws::{
    allocated_block, lemma_allocation_aligned, lemma_allocation_sound, lemma_dealloc_sound,
    lemma_empty_heap_sound, Block,
};
use crate::memory::frame_allocator::{
    after_allocations, can_allocate, frame_after, lemma_allocatable, lemma_one_more_allocation,
    lemma_rest_fails, PhysicalFrameAllocator,
};
use crate::memory::paging::{LoggedMapper, MapFlags, PageMapper};
use crate::memory::allocator::size_class::{
    bin_number, get_bin_number, get_bin_size, BIN_COUNT, MAX_REQUEST,
};

verus! {

/// A snapshot of the allocator for diagnostics.
#[derive(Debug)]
pub struct HeapReport {
    /// First address of the window.
    pub block_start: u64,
    /// The frontier.
    pub block_current: u64,
    /// First address after the window.
    pub block_end: u64,
    /// Number of free chunks in each bin, by bin index.
    pub chunk_counts: Vec<usize>,
}

/// The bin allocator.
pub struct Allocator {
    bins: Vec<Vec<u64>>,
    block_start: u64,
    block_current: u64,
    block_end: u64,
}

impl View for Allocator {
    type V = HeapView;

    closed spec fn view(&self) -> HeapView {
        HeapView {
            bins: self.bins@.map_values(|list: Vec<u64>| list@),
            start: self.block_start as int,
            current: self.block_current as int,
            end: self.block_end as int,
        }
    }
}

impl Allocator {
    /// The allocator's invariant, which is that of its view.
    pub open spec fn wf(&self) -> bool {
        self@.wf()
    }

    /// Creates an allocator for the window from `start` up to `end`. All bins
    /// are empty and the frontier stands at `start`.
    pub fn new(start: u64, end: u64) -> (allocator: Allocator)
        requires
            start <= end,
        ensures
            allocator.wf(),
            allocator@ == HeapView::empty(start as int, end as int),
            allocator@.sound(Set::<Block>::empty()),
    {
        let mut bins: Vec<Vec<u64>> = Vec::new();
        let mut count: usize = 0;
        while count < BIN_COUNT
            invariant
                count <= BIN_COUNT,
                bins@.len() == count,
                forall|bin: int| 0 <= bin < count ==> (#[trigger] bins@[bin])@ == Seq::<u64>::empty(),
            decreases BIN_COUNT - count,
        {
            bins.push(Vec::new());
            count = count + 1;
        }
        let allocator = Allocator { bins, block_start: start, block_current: start, block_end: end };
        proof {
            assert(allocator@.bins =~= HeapView::empty(start as int, end as int).bins);
            lemma_empty_heap_sound(start as int, end as int);
        }
        allocator
    }

    /// First address of the window.
    pub fn block_start(&self) -> (address: u64)
        ensures
            address == self@.start,
    {
        self.block_start
    }

    /// The frontier: the first address of the window that was never touched.
    pub fn block_current(&self) -> (address: u64)
        ensures
            address == self@.current,
    {
        self.block_current
    }

    /// First address after the window.
    pub fn block_end(&self) -> (address: u64)
        ensures
            address == self@.end,
    {
        self.block_end
    }

    /// Reports the bounds of the window, the frontier, and how many free
    /// chunks each bin holds.
    pub fn report(&self) -> (report: HeapReport)
        requires
            self.wf(),
        ensures
            report.block_start == self@.start,
            report.block_current == self@.current,
            report.block_end == self@.end,
            report.chunk_counts@.len() == BIN_COUNT,
            forall|bin: int|
                0 <= bin < BIN_COUNT ==> #[trigger] report.chunk_counts@[bin]
                    == self@.bins[bin].len(),
    {
        let mut chunk_counts: Vec<usize> = Vec::new();
        let mut bin: usize = 0;
        while bin < BIN_COUNT
            invariant
                self.wf(),
                bin <= BIN_COUNT,
                chunk_counts@.len() == bin,
                forall|lower: int|
                    0 <= lower < bin ==> #[trigger] chunk_counts@[lower]
                        == self@.bins[lower].len(),
            decreases BIN_COUNT - bin,
        {
            chunk_counts.push(self.bins[bin].len());
            bin = bin + 1;
        }
        HeapReport {
            block_start: self.block_start,
            block_current: self.block_current,
            block_end: self.block_end,
            chunk_counts,
        }
    }

    /// Takes from bin `bin` the most recently freed chunk whose address is a
    /// multiple of `align`, if the bin has one.
    pub fn alloc_from_bin(&mut self, bin: usize, align: u64) -> (chunk: Option<u64>)
        requires
            old(self).wf(),
            bin < BIN_COUNT,
            align > 0,
        ensures
            final(self).wf(),
            match chunk {
                Some(address) => {
                    let index = newest_aligned(old(self)@.bins[bin as int], align as int);
                    &&& index >= 0
                    &&& address == old(self)@.bins[bin as int][index]
                    &&& final(self)@ == old(self)@.take_chunk(bin as int, index)
                },
                None => {
                    &&& newest_aligned(old(self)@.bins[bin as int], align as int) < 0
                    &&& final(self)@ == old(self)@
                },
            },
    {
        let ghost list = self@.bins[bin as int];
        let mut index: usize = self.bins[bin].len();
        while index > 0
            invariant
                *self == *old(self),
                bin < BIN_COUNT,
                self.wf(),
                align > 0,
                list == self@.bins[bin as int],
                index <= list.len(),
                forall|later: int| index <= later < list.len() ==> (#[trigger] list[later]) as int % (
                align as int) != 0,
            decreases index,
        {
            index = index - 1;
            if self.bins[bin][index] % align == 0 {
                proof {
                    let newest = newest_aligned(list, align as int);
                    lemma_newest_aligned(list, align as int);
                    assert(list[index as int] as int % (align as int) == 0);
                    if newest > index {
                        assert(list[newest] as int % (align as int) != 0);
                    }
                    assert(newest == index);
                }
                let address = self.bins[bin].remove(index);
                proof {
                    assert(self@.bins =~= old(self)@.take_chunk(bin as int, index as int).bins);
                    lemma_take_chunk_wf(old(self)@, bin as int, index as int);
                }
                return Some(address);
            }
        }
        proof {
            lemma_newest_aligned(list, align as int);
        }
        None
    }

    /// Carves a chunk of bin `bin`, aligned to `align`, from the untouched
    /// memory at the frontier. The frontier moves to the end of the chunk; the
    /// bytes between the old frontier and the chunk, if there are any, become
    /// a free chunk of the bin of their size. Every page that holds a byte
    /// between the old frontier and the new one, and has no frame yet, gets a
    /// frame from `frames` and is handed to `mapper`, in rising order.
    ///
    /// Where the window has no room, nothing happens. Where the frames run
    /// out or the mapper refuses a page, the heap stays as it is; the frames
    /// taken until then are not given back, and the pages mapped stay mapped.
    pub fn alloc_from_block<M: PageMapper>(
        &mut self,
        frames: &mut PhysicalFrameAllocator,
        mapper: &mut LoggedMapper<M>,
        bin: usize,
        align: u64,
    ) -> (result: Result<u64, AllocError>)
        requires
            old(self).wf(),
            old(frames).wf(),
            bin < BIN_COUNT,
            align > 0,
            old(self)@.gap_placeable(align as int),
        ensures
            final(self).wf(),
            final(frames).wf(),
            old(self)@.growth_log(
                old(frames)@,
                bin as int,
                align as int,
                old(mapper).requests(),
                final(mapper).requests(),
                result,
            ),
            match result {
                Err(AllocError::MapFailure { page }) => {
                    let first = old(self)@.first_new_page();
                    let refused = (page - first) / (PAGE_SIZE as int);
                    &&& final(self)@ == old(self)@
                    &&& old(self)@.growth_fits(bin as int, align as int)
                    &&& first <= page
                    &&& (page - first) % (PAGE_SIZE as int) == 0
                    &&& refused < old(self)@.growth_pages(bin as int, align as int)
                    &&& can_allocate(old(frames)@, (refused + 1) as nat)
                    &&& final(frames)@ == after_allocations(old(frames)@, (refused + 1) as nat)
                },
                _ => (final(self)@, final(frames)@, result) == old(self)@.growth_outcome(
                    old(frames)@,
                    bin as int,
                    align as int,
                ),
            },
    {
        let ghost heap = self@;
        let ghost supply = frames@;
        let ghost asked = mapper.requests();
        let size = get_bin_size(bin);
        proof {
            lemma_align_up(heap.current, align as int);
        }
        let aligned = match checked_align_up(self.block_current, align) {
            Some(aligned) => aligned,
            None => { return Err(AllocError::HeapExhausted); },
        };
        let target = match aligned.checked_add(size) {
            Some(target) => target,
            None => { return Err(AllocError::HeapExhausted); },
        };
        if target > self.block_end {
            return Err(AllocError::HeapExhausted);
        }
        proof {
            lemma_grown_wf(heap, bin as int, align as int);
            lemma_new_pages(heap, bin as int, align as int);
        }
        // The pages from `first_page` up to `last_page` need a frame.
        let last_page: u64 = crate::memory::align_down(target - 1, PAGE_SIZE);
        let first: Option<u64> = if self.block_current == self.block_start {
            Some(crate::memory::align_down(self.block_current, PAGE_SIZE))
        } else {
            checked_align_up(self.block_current, PAGE_SIZE)
        };
        let (first_page, count): (u64, u64) = match first {
            Some(first_page) => if first_page <= last_page {
                (first_page, (last_page - first_page) / PAGE_SIZE + 1)
            } else {
                (first_page, 0)
            },
            None => (0, 0),
        };
        let ghost pages = heap.growth_pages(bin as int, align as int);
        assert(count == pages);
        assert(count > 0 ==> first_page == heap.first_new_page() && first_page + (count - 1)
            * PAGE_SIZE == last_page);
        let mut turn: u64 = 0;
        while turn < count
            invariant
                *self == *old(self),
                self.wf(),
                heap == self@,
                supply == old(frames)@,
                asked == old(mapper).requests(),
                frames.wf(),
                turn <= count,
                count == pages,
                pages == heap.growth_pages(bin as int, align as int),
                heap.growth_fits(bin as int, align as int),
                count > 0 ==> first_page == heap.first_new_page() && first_page + (count - 1)
                    * PAGE_SIZE == last_page,
                can_allocate(supply, turn as nat),
                frames@ == after_allocations(supply, turn as nat),
                backing_log(
                    asked,
                    mapper.requests(),
                    heap.first_new_page(),
                    supply,
                    turn as nat,
                    false,
                ),
            decreases count - turn,
        {
            let page: u64 = first_page + turn * PAGE_SIZE;
            let ghost so_far = mapper.requests();
            proof {
                lemma_one_more_allocation(supply, turn as nat);
            }
            let frame = match frames.allocate_frame() {
                Ok(frame) => frame,
                Err(_) => {
                    proof {
                        lemma_rest_fails(supply, turn as nat, pages);
                        lemma_allocatable(supply, turn as nat, pages);
                    }
                    return Err(AllocError::HeapExhausted);
                },
            };
            match mapper.map(page, frame, MapFlags::present_writable()) {
                Ok(_) => {
                    proof {
                        assert(backing_log(
                            asked,
                            mapper.requests(),
                            heap.first_new_page(),
                            supply,
                            (turn + 1) as nat,
                            false,
                        )) by {
                            assert forall|at: int| 0 <= at < asked.len() implies #[trigger] mapper.requests()[at]
                                == asked[at] by {
                                assert(mapper.requests()[at] == so_far[at]);
                            }
                            assert forall|at: int|
                                asked.len() <= at < mapper.requests().len() implies ({
                                let request = #[trigger] mapper.requests()[at];
                                let place = at - asked.len();
                                &&& request.page == heap.first_new_page() + place * PAGE_SIZE
                                &&& frame_after(supply, place as nat) == Some(request.frame.start())
                                &&& request.flags == (MapFlags { present: true, writable: true })
                                &&& request.accepted == (place < turn + 1)
                            }) by {
                                if at < so_far.len() {
                                    assert(mapper.requests()[at] == so_far[at]);
                                }
                            }
                        }
                    }
                },
                Err(_) => {
                    proof {
                        assert((page - heap.first_new_page()) / (PAGE_SIZE as int) == turn);
                        assert(backing_log(
                            asked,
                            mapper.requests(),
                            heap.first_new_page(),
                            supply,
                            turn as nat,
                            true,
                        )) by {
                            assert forall|at: int| 0 <= at < asked.len() implies #[trigger] mapper.requests()[at]
                                == asked[at] by {
                                assert(mapper.requests()[at] == so_far[at]);
                            }
                            assert forall|at: int|
                                asked.len() <= at < mapper.requests().len() implies ({
                                let request = #[trigger] mapper.requests()[at];
                                let place = at - asked.len();
                                &&& request.page == heap.first_new_page() + place * PAGE_SIZE
                                &&& frame_after(supply, place as nat) == Some(request.frame.start())
                                &&& request.flags == (MapFlags { present: true, writable: true })
                                &&& request.accepted == (place < turn)
                            }) by {
                                if at < so_far.len() {
                                    assert(mapper.requests()[at] == so_far[at]);
                                }
                            }
                        }
                    }
                    return Err(AllocError::MapFailure { page });
                },
            }
            turn = turn + 1;
        }
        proof {
            lemma_allocatable(supply, pages, pages);
        }
        if aligned > self.block_current {
            let gap_bin = get_bin_number(aligned - self.block_current);
            self.bins[gap_bin].push(self.block_current);
        }
        self.block_current = target;
        proof {
            assert(self@.bins =~= heap.grown(bin as int, align as int).bins);
        }
        Ok(aligned)
    }

    /// Cuts the `chunk_size` bytes from `chunk_start` on into chunks of bin
    /// `bin_number` and adds them all to that bin, from the lowest address up.
    pub fn break_up_chunk(&mut self, chunk_start: u64, chunk_size: u64, bin_number: usize)
        requires
            old(self).wf(),
            bin_number < BIN_COUNT,
            chunk_size as int % self::chunk_size(bin_number as int) == 0,
            chunk_start + chunk_size <= u64::MAX,
        ensures
            final(self).wf(),
            final(self)@ == old(self)@.give_pieces(
                bin_number as int,
                chunk_start as int,
                chunk_size as int / self::chunk_size(bin_number as int),
            ),
    {
        let part_size = get_bin_size(bin_number);
        let count: u64 = chunk_size / part_size;
        let ghost heap = self@;
        proof {
            vstd::arithmetic::div_mod::lemma_fundamental_div_mod(chunk_size as int, part_size as int);
            assert(heap.give_pieces(bin_number as int, chunk_start as int, 0).bins =~= heap.bins);
        }
        let mut index: u64 = 0;
        while index < count
            invariant
                bin_number < BIN_COUNT,
                heap.wf(),
                index <= count,
                part_size == self::chunk_size(bin_number as int),
                part_size > 0,
                chunk_size == part_size * count,
                chunk_start + chunk_size <= u64::MAX,
                self@ == heap.give_pieces(bin_number as int, chunk_start as int, index as int),
            decreases count - index,
        {
            assert(index * part_size + part_size <= part_size * count) by (nonlinear_arith)
                requires
                    index < count,
                    part_size > 0,
            ;
            let piece: u64 = chunk_start + index * part_size;
            let ghost before = self@;
            assert(self.bins@.len() == before.bins.len());
            self.bins[bin_number].push(piece);
            proof {
                let so_far = pieces(chunk_start as int, index as int, bin_number as int);
                let further = pieces(chunk_start as int, index + 1, bin_number as int);
                assert(piece == child(chunk_start as int, index as int, bin_number as int));
                assert(further =~= so_far.push(piece));
                assert(self@.bins[bin_number as int] == before.bins[bin_number as int].push(piece));
                assert(self@.bins[bin_number as int] =~= heap.bins[bin_number as int] + further);
                let goal = heap.give_pieces(bin_number as int, chunk_start as int, index + 1);
                assert(self@.bins.len() == goal.bins.len());
                assert forall|b: int| 0 <= b < goal.bins.len() implies self@.bins[b]
                    == goal.bins[b] by {
                    if b != bin_number {
                        assert(self@.bins[b] == before.bins[b]);
                    }
                }
                assert(self@.bins =~= heap.give_pieces(
                    bin_number as int,
                    chunk_start as int,
                    index + 1,
                ).bins);
            }
            index = index + 1;
        }
        proof {
            assert(count * self::chunk_size(bin_number as int) == chunk_size) by (nonlinear_arith)
                requires
                    chunk_size == part_size * count,
                    part_size == self::chunk_size(bin_number as int),
            ;
            lemma_give_pieces_wf(heap, bin_number as int, chunk_start as int, count as int);
        }
    }

    /// Serves a request of bin `bin` aligned to `align` from a larger chunk.
    /// The bins above `bin` are searched from the lowest up, each from its
    /// most recent chunk back, for a chunk with an aligned piece of bin `bin`. The first one found is cut into pieces of
    /// bin `bin`; the lowest aligned piece is the result, the others join
    /// bin `bin`. Where no such chunk is found the heap stays as it is.
    pub fn alloc_by_split(&mut self, bin: usize, align: u64) -> (result: Result<u64, AllocError>)
        requires
            old(self).wf(),
            bin < BIN_COUNT,
            align > 0,
        ensures
            final(self).wf(),
            (final(self)@, result) == old(self)@.split_outcome(bin as int, align as int),
    {
        let ghost heap = self@;
        let mut parent_bin: usize = bin + 1;
        while parent_bin < BIN_COUNT
            invariant
                *self == *old(self),
                heap == self@,
                heap.wf(),
                bin < BIN_COUNT,
                align > 0,
                bin < parent_bin,
                forall|lower: int|
                    bin < lower < parent_bin ==> newest_splittable(
                        #[trigger] heap.bins[lower],
                        lower,
                        bin as int,
                        align as int,
                    ) < 0,
            decreases BIN_COUNT - parent_bin,
        {
            let ghost list = heap.bins[parent_bin as int];
            let mut index: usize = self.bins[parent_bin].len();
            while index > 0
                invariant
                    *self == *old(self),
                    heap == self@,
                    heap.wf(),
                    bin < parent_bin < BIN_COUNT,
                    align > 0,
                    list == heap.bins[parent_bin as int],
                    index <= list.len(),
                    forall|later: int|
                        index <= later < list.len() ==> !splittable(
                            (#[trigger] list[later]) as int,
                            parent_bin as int,
                            bin as int,
                            align as int,
                        ),
                    forall|lower: int|
                        bin < lower < parent_bin ==> newest_splittable(
                            #[trigger] heap.bins[lower],
                            lower,
                            bin as int,
                            align as int,
                        ) < 0,
                decreases index,
            {
                index = index - 1;
                let parent = self.bins[parent_bin][index];
                assert(parent == list[index as int]);
                match first_aligned_piece(parent, parent_bin, bin, align) {
                    Some(picked) => {
                        proof {
                            lemma_newest_splittable(list, parent_bin as int, bin as int, align as int);
                            let newest = newest_splittable(
                                list,
                                parent_bin as int,
                                bin as int,
                                align as int,
                            );
                            if newest > index {
                                assert(!splittable(
                                    list[newest] as int,
                                    parent_bin as int,
                                    bin as int,
                                    align as int,
                                ));
                            }
                            assert(newest == index);
                            lemma_first_split_bin(heap.bins, bin + 1, bin as int, align as int);
                            let first = heap.split_bin(bin as int, align as int);
                            if first < parent_bin {
                                assert(newest_splittable(
                                    heap.bins[first],
                                    first,
                                    bin as int,
                                    align as int,
                                ) < 0);
                            }
                            assert(first == parent_bin);
                            lemma_child_count(parent_bin as int, bin as int);
                            lemma_chunk_size_bounds(bin as int);
                            lemma_take_chunk_wf(heap, parent_bin as int, index as int);
                        }
                        self.bins[parent_bin].remove(index);
                        let ghost taken = self@;
                        proof {
                            assert(taken.bins =~= heap.take_chunk(
                                parent_bin as int,
                                index as int,
                            ).bins);
                            assert(chunk_size(parent_bin as int) % chunk_size(bin as int) == 0) by {
                                vstd::arithmetic::div_mod::lemma_mod_multiples_basic(
                                    child_count(parent_bin as int, bin as int),
                                    chunk_size(bin as int),
                                );
                            }
                            assert(chunk_size(parent_bin as int) / chunk_size(bin as int)
                                == child_count(parent_bin as int, bin as int)) by {
                                vstd::arithmetic::div_mod::lemma_div_by_multiple(
                                    child_count(parent_bin as int, bin as int),
                                    chunk_size(bin as int),
                                );
                            }
                        }
                        let parent_size = get_bin_size(parent_bin);
                        let count: u64 = parent_size / get_bin_size(bin);
                        let ghost before = taken.bins[bin as int].len();
                        self.break_up_chunk(parent, parent_size, bin);
                        let ghost broken = self@;
                        let ghost all = children(parent as int, parent_bin as int, bin as int);
                        proof {
                            assert(broken.bins[bin as int] == taken.bins[bin as int] + all);
                            assert(self.bins@[bin as int]@ == broken.bins[bin as int]);
                            assert(all.len() == count);
                            assert(picked < count);
                            lemma_take_chunk_wf(broken, bin as int, before + picked);
                        }
                        // The pieces are the last `count` chunks of the bin.
                        let position: usize = self.bins[bin].len() - (count - picked) as usize;
                        let address = self.bins[bin].remove(position);
                        proof {
                            let goal = heap.split(
                                parent_bin as int,
                                index as int,
                                bin as int,
                                align as int,
                            );
                            assert(self@.bins =~= broken.take_chunk(
                                bin as int,
                                before + picked,
                            ).bins);
                            assert(address == all[picked as int]);
                            assert(self@.bins.len() == goal.bins.len());
                            assert forall|b: int| 0 <= b < goal.bins.len() implies self@.bins[b]
                                == goal.bins[b] by {
                                if b == bin {
                                    assert(self@.bins[b] =~= taken.bins[b] + all.remove(
                                        picked as int,
                                    ));
                                } else {
                                    assert(self@.bins[b] == broken.bins[b]);
                                    assert(broken.bins[b] == taken.bins[b]);
                                }
                            }
                            assert(self@.bins =~= goal.bins);
                        }
                        return Ok(address);
                    },
                    None => {},
                }
            }
            proof {
                lemma_newest_splittable(list, parent_bin as int, bin as int, align as int);
                let newest = newest_splittable(list, parent_bin as int, bin as int, align as int);
                if newest >= 0 {
                    assert(!splittable(
                        list[newest] as int,
                        parent_bin as int,
                        bin as int,
                        align as int,
                    ));
                }
            }
            parent_bin = parent_bin + 1;
        }
        proof {
            lemma_first_split_bin(heap.bins, bin + 1, bin as int, align as int);
            let first = heap.split_bin(bin as int, align as int);
            if first < BIN_COUNT {
                assert(newest_splittable(heap.bins[first], first, bin as int, align as int) < 0);
            }
        }
        Err(AllocError::HeapExhausted)
    }

    /// Tells whether the bytes between the frontier and the next multiple of
    /// `align` can be kept as a free chunk: there are none, or as many as the
    /// chunks of some bin have.
    pub fn can_place_gap(&self, align: u64) -> (placeable: bool)
        requires
            self.wf(),
            align > 0,
        ensures
            placeable == self@.gap_placeable(align as int),
    {
        let rest: u64 = self.block_current % align;
        if rest == 0 {
            true
        } else {
            let gap: u64 = align - rest;
            let bin = get_bin_number(gap);
            bin < BIN_COUNT && get_bin_size(bin) == gap
        }
    }

    /// Tells whether bin `bin` holds a chunk whose address is a multiple of
    /// `align`.
    pub fn has_aligned_chunk(&self, bin: usize, align: u64) -> (found: bool)
        requires
            self.wf(),
            bin < BIN_COUNT,
            align > 0,
        ensures
            found == (newest_aligned(self@.bins[bin as int], align as int) >= 0),
    {
        let ghost list = self@.bins[bin as int];
        let mut index: usize = self.bins[bin].len();
        while index > 0
            invariant
                bin < BIN_COUNT,
                self.wf(),
                align > 0,
                list == self@.bins[bin as int],
                index <= list.len(),
                forall|later: int|
                    index <= later < list.len() ==> (#[trigger] list[later]) as int % (
                    align as int) != 0,
            decreases index,
        {
            index = index - 1;
            if self.bins[bin][index] % align == 0 {
                proof {
                    lemma_newest_aligned(list, align as int);
                    assert(list[index as int] as int % (align as int) == 0);
                }
                return true;
            }
        }
        proof {
            lemma_newest_aligned(list, align as int);
        }
        false
    }

    /// Tells whether `allocate` admits a request of `size` bytes aligned to
    /// `align`: the request does not reach the frontier, or the gap that the
    /// alignment opens there can be kept.
    pub fn admits(&self, size: u64, align: u64) -> (admitted: bool)
        requires
            self.wf(),
            size > 0,
            align > 0,
        ensures
            admitted == (self@.reaches_frontier(size as int, align as int)
                ==> self@.gap_placeable(align as int)),
    {
        let bin = get_bin_number(size);
        if bin >= BIN_COUNT {
            true
        } else if self.has_aligned_chunk(bin, align) {
            true
        } else {
            self.can_place_gap(align)
        }
    }

    /// Allocates a block of at least `size` bytes whose address is a multiple
    /// of `align`, and returns its address.
    ///
    /// The request is served from the bin of its size: by the most recently
    /// freed aligned chunk of that bin; else by a chunk carved at the
    /// frontier, whose pages get their frames from `frames` and are handed
    /// to `mapper`; else by a piece of a larger free chunk. A request beyond
    /// `MAX_REQUEST` is refused. When the mapper refuses a page the
    /// allocation ends there, with the heap as it was.
    ///
    /// A gap that alignment opens at the frontier must be empty or have the
    /// size of a bin; `admits` tells whether a request is admitted.
    pub fn allocate<M: PageMapper>(
        &mut self,
        frames: &mut PhysicalFrameAllocator,
        mapper: &mut LoggedMapper<M>,
        size: u64,
        align: u64,
    ) -> (result: Result<u64, AllocError>)
        requires
            old(self).wf(),
            old(frames).wf(),
            size > 0,
            align > 0,
            old(self)@.reaches_frontier(size as int, align as int) ==> old(self)@.gap_placeable(
                align as int,
            ),
        ensures
            final(self).wf(),
            final(frames).wf(),
            if old(self)@.reaches_frontier(size as int, align as int) {
                old(self)@.growth_log(
                    old(frames)@,
                    bin_number(size as nat) as int,
                    align as int,
                    old(mapper).requests(),
                    final(mapper).requests(),
                    result,
                )
            } else {
                final(mapper).requests() == old(mapper).requests()
            },
            match result {
                Err(AllocError::MapFailure { page }) => {
                    let bin = bin_number(size as nat) as int;
                    let first = old(self)@.first_new_page();
                    let refused = (page - first) / (PAGE_SIZE as int);
                    &&& final(self)@ == old(self)@
                    &&& old(self)@.reaches_frontier(size as int, align as int)
                    &&& old(self)@.growth_fits(bin, align as int)
                    &&& first <= page
                    &&& (page - first) % (PAGE_SIZE as int) == 0
                    &&& refused < old(self)@.growth_pages(bin, align as int)
                    &&& can_allocate(old(frames)@, (refused + 1) as nat)
                    &&& final(frames)@ == after_allocations(old(frames)@, (refused + 1) as nat)
                },
                _ => (final(self)@, final(frames)@, result) == old(self)@.alloc_outcome(
                    old(frames)@,
                    size as int,
                    align as int,
                ),
            },
            final(self)@.start == old(self)@.start,
            final(self)@.end == old(self)@.end,
            final(self)@.current >= old(self)@.current,
            match result {
                Ok(address) => address as int % (align as int) == 0 && allocated_block(
                    address as int,
                    size as int,
                ).size >= size,
                Err(_) => final(self)@ == old(self)@,
            },
            forall|live: Set<Block>| #[trigger]
                old(self)@.sound(live) ==> match result {
                    Ok(address) => {
                        let block = allocated_block(address as int, size as int);
                        &&& block.inside(old(self)@.start, old(self)@.end)
                        &&& !live.contains(block)
                        &&& forall|other: Block| #[trigger]
                            live.contains(other) ==> other.apart_from(block)
                        &&& final(self)@.sound(live.insert(block))
                    },
                    Err(_) => final(self)@.sound(live),
                },
    {
        let bin = get_bin_number(size);
        let result = if bin >= BIN_COUNT {
            Err(AllocError::OversizeRequest)
        } else {
            match self.alloc_from_bin(bin, align) {
                Some(chunk) => Ok(chunk),
                None => match self.alloc_from_block(frames, mapper, bin, align) {
                    Ok(chunk) => Ok(chunk),
                    Err(AllocError::MapFailure { page }) => Err(AllocError::MapFailure { page }),
                    Err(_) => self.alloc_by_split(bin, align),
                },
            }
        };
        proof {
            lemma_allocation_aligned(old(self)@, old(frames)@, size as int, align as int);
            assert forall|live: Set<Block>| #[trigger] old(self)@.sound(live) implies match result {
                Ok(address) => {
                    let block = allocated_block(address as int, size as int);
                    &&& block.inside(old(self)@.start, old(self)@.end)
                    &&& !live.contains(block)
                    &&& forall|other: Block| #[trigger]
                        live.contains(other) ==> other.apart_from(block)
                    &&& self@.sound(live.insert(block))
                },
                Err(_) => self@.sound(live),
            } by {
                lemma_allocation_sound(old(self)@, live, old(frames)@, size as int, align as int);
            }
        }
        result
    }

    /// Returns the block of `size` bytes at `ptr` to the heap: `ptr` becomes
    /// the most recent chunk of the bin that serves requests of `size` bytes.
    /// Nothing is checked: that the block came from this allocator, was
    /// requested with this size and is not free already is up to the caller.
    pub fn dealloc(&mut self, ptr: u64, size: u64)
        requires
            old(self).wf(),
            0 < size <= MAX_REQUEST,
            ptr + chunk_size(bin_number(size as nat) as int) <= u64::MAX,
        ensures
            final(self).wf(),
            final(self)@ == old(self)@.give_chunk(bin_number(size as nat) as int, ptr),
            forall|live: Set<Block>|
                #[trigger] old(self)@.sound(live) && live.contains(
                    allocated_block(ptr as int, size as int),
                ) ==> final(self)@.sound(live.remove(allocated_block(ptr as int, size as int))),
    {
        let bin = get_bin_number(size);
        self.bins[bin].push(ptr);
        proof {
            assert forall|live: Set<Block>|
                #[trigger] old(self)@.sound(live) && live.contains(
                    allocated_block(ptr as int, size as int),
                ) implies old(self)@.give_chunk(bin as int, ptr).sound(
                live.remove(allocated_block(ptr as int, size as int)),
            ) by {
                lemma_dealloc_sound(old(self)@, live, ptr, size as int);
            }
            assert(self@.bins =~= old(self)@.give_chunk(bin as int, ptr).bins);
            lemma_give_chunk_wf(old(self)@, bin as int, ptr);
        }
    }
}

/// Finds, among the pieces of bin `bin` that make up the chunk of bin
/// `parent_bin` at `parent`, the lowest one whose address is a multiple of
/// `align`, and returns its index.
pub fn first_aligned_piece(parent: u64, parent_bin: usize, bin: usize, align: u64) -> (index:
    Option<u64>)
    requires
        bin <= parent_bin < BIN_COUNT,
        align > 0,
        parent + chunk_size(parent_bin as int) <= u64::MAX,
    ensures
        match index {
            Some(picked) => picked == first_aligned_child(
                parent as int,
                parent_bin as int,
                bin as int,
                align as int,
            ) && splittable(parent as int, parent_bin as int, bin as int, align as int),
            None => !splittable(parent as int, parent_bin as int, bin as int, align as int),
        },
{
    let part_size = get_bin_size(bin);
    let count: u64 = get_bin_size(parent_bin) / part_size;
    proof {
        lemma_child_count(parent_bin as int, bin as int);
        lemma_chunk_size_bounds(bin as int);
        vstd::arithmetic::div_mod::lemma_div_by_multiple(
            child_count(parent_bin as int, bin as int),
            chunk_size(bin as int),
        );
    }
    let mut index: u64 = 0;
    while index < count
        invariant
            index <= count,
            align > 0,
            part_size == chunk_size(bin as int),
            part_size > 0,
            count == child_count(parent_bin as int, bin as int),
            parent + count * part_size <= u64::MAX,
            first_aligned_child(parent as int, parent_bin as int, bin as int, align as int)
                == first_aligned_child_from(
                parent as int,
                index as int,
                count as int,
                bin as int,
                align as int,
            ),
        decreases count - index,
    {
        assert(index * part_size + part_size <= count * part_size) by (nonlinear_arith)
            requires
                index < count,
                part_size > 0,
        ;
        let piece: u64 = parent + index * part_size;
        if piece % align == 0 {
            return Some(index);
        }
        index = index + 1;
    }
    None
}

} // verus!
