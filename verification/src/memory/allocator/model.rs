//! The heap allocator as the contracts see it: the free lists, the window and
//! the frontier, and the outcome of each step of an allocation as a function
//! of them.
use vstd::prelude::*;
use vstd::arithmetic::power2::pow2;
use crate::memory::{align_down_spec, align_up_spec, lemma_align_down, lemma_align_up, PAGE_SIZE};
use crate::memory::allocator::size_class::{bin_number, bin_size, BIN_COUNT, MAX_REQUEST};
use crate::memory::frame_allocator::{
    after_allocations, allocatable, can_allocate, frame_after, Span,
};
use crate::memory::paging::{MapFlags, MapRequest};

verus! {

/// What an allocation reports when it yields no memory.
#[derive(Debug, Clone, Copy, PartialEq, Eq, Structural)]
pub enum AllocError {
    /// The request is larger than the chunks of the last bin.
    OversizeRequest,
    /// The bin holds no fitting chunk, the frontier cannot grow, and no
    /// larger chunk can be split.
    HeapExhausted,
    /// The mapper refused to map the page that starts at `page`.
    MapFailure { page: u64 },
}

/// Chunk size of bin `bin` as an integer.
pub open spec fn chunk_size(bin: int) -> int {
    bin_size(bin as nat) as int
}

/// Whether `size` is the chunk size of one of the bins.
pub open spec fn is_bin_size(size: int) -> bool {
    0 < size && bin_number(size as nat) < BIN_COUNT && chunk_size(bin_number(size as nat) as int)
        == size
}

/// Index of the chunk that a scan of `list` for alignment `align` takes: the
/// most recently added chunk whose address is a multiple of `align`. It is
/// -1 when no chunk of `list` is aligned. A list holds its chunks from the
/// oldest to the most recently added.
pub open spec fn newest_aligned(list: Seq<u64>, align: int) -> int
    decreases list.len(),
{
    if list.len() == 0 {
        -1
    } else if list.last() as int % align == 0 {
        list.len() - 1
    } else {
        newest_aligned(list.drop_last(), align)
    }
}

/// Number of chunks of bin `child_bin` that make up a chunk of bin
/// `parent_bin`.
pub open spec fn child_count(parent_bin: int, child_bin: int) -> int {
    pow2((parent_bin - child_bin) as nat) as int
}

/// Address of the `index`-th piece of bin `child_bin` in the chunk at `parent`.
pub open spec fn child(parent: int, index: int, child_bin: int) -> int {
    parent + index * chunk_size(child_bin)
}

/// The least index from `from` on, below `count`, of a piece of bin
/// `child_bin` in the chunk at `parent` whose address is a multiple of
/// `align`; `count` when there is none.
pub open spec fn first_aligned_child_from(
    parent: int,
    from: int,
    count: int,
    child_bin: int,
    align: int,
) -> int
    decreases count - from,
{
    if from >= count {
        count
    } else if child(parent, from, child_bin) % align == 0 {
        from
    } else {
        first_aligned_child_from(parent, from + 1, count, child_bin, align)
    }
}

/// Index of the lowest piece of bin `child_bin`, in the chunk of bin
/// `parent_bin` at `parent`, whose address is a multiple of `align`; the
/// number of pieces when there is none.
pub open spec fn first_aligned_child(
    parent: int,
    parent_bin: int,
    child_bin: int,
    align: int,
) -> int {
    first_aligned_child_from(parent, 0, child_count(parent_bin, child_bin), child_bin, align)
}

/// Whether splitting the chunk of bin `parent_bin` at `parent` yields a piece
/// of bin `child_bin` aligned to `align`.
pub open spec fn splittable(parent: int, parent_bin: int, child_bin: int, align: int) -> bool {
    first_aligned_child(parent, parent_bin, child_bin, align) < child_count(parent_bin, child_bin)
}

/// Index of the most recently added chunk of `list`, a list of bin
/// `parent_bin`, that is splittable for bin `child_bin` and `align`; -1 when
/// there is none.
pub open spec fn newest_splittable(
    list: Seq<u64>,
    parent_bin: int,
    child_bin: int,
    align: int,
) -> int
    decreases list.len(),
{
    if list.len() == 0 {
        -1
    } else if splittable(list.last() as int, parent_bin, child_bin, align) {
        list.len() - 1
    } else {
        newest_splittable(list.drop_last(), parent_bin, child_bin, align)
    }
}

/// The lowest bin from `from` on that holds a chunk splittable for bin
/// `child_bin` and `align`; `BIN_COUNT` when there is none.
pub open spec fn first_split_bin(
    bins: Seq<Seq<u64>>,
    from: int,
    child_bin: int,
    align: int,
) -> int
    decreases BIN_COUNT - from,
{
    if from >= BIN_COUNT {
        BIN_COUNT as int
    } else if newest_splittable(bins[from], from, child_bin, align) >= 0 {
        from
    } else {
        first_split_bin(bins, from + 1, child_bin, align)
    }
}

/// The first `count` pieces of bin `bin` from `start` on, from the lowest
/// address up.
pub open spec fn pieces(start: int, count: int, bin: int) -> Seq<u64> {
    Seq::new(count as nat, |index: int| child(start, index, bin) as u64)
}

/// The pieces of bin `child_bin` that make up the chunk of bin `parent_bin`
/// at `parent`, from the lowest address up.
pub open spec fn children(parent: int, parent_bin: int, child_bin: int) -> Seq<u64> {
    pieces(parent, child_count(parent_bin, child_bin), child_bin)
}

/// Whether `after` is the record `before` with the requests that backing
/// pages adds. The pages are asked for from `first` on in rising order, each
/// with the frame that `frames` yields for it, present and writable. The
/// mapper accepted `accepted` of them; where `refused` holds, one more
/// request follows them, which it refused.
pub open spec fn backing_log(
    before: Seq<MapRequest>,
    after: Seq<MapRequest>,
    first: int,
    frames: Seq<Span>,
    accepted: nat,
    refused: bool,
) -> bool {
    let added = accepted + if refused {
        1nat
    } else {
        0nat
    };
    &&& after.len() == before.len() + added
    &&& forall|at: int| 0 <= at < before.len() ==> #[trigger] after[at] == before[at]
    &&& forall|at: int|
        before.len() <= at < after.len() ==> {
            let request = #[trigger] after[at];
            let turn = at - before.len();
            &&& request.page == first + turn * PAGE_SIZE
            &&& frame_after(frames, turn as nat) == Some(request.frame.start())
            &&& request.flags == (MapFlags { present: true, writable: true })
            &&& request.accepted == (turn < accepted)
        }
}

/// The heap allocator as the contracts see it.
pub struct HeapView {
    /// The free list of each bin, from the oldest chunk to the most recently
    /// added one. A chunk is the address of its first byte.
    pub bins: Seq<Seq<u64>>,
    /// First address of the window that the heap may use.
    pub start: int,
    /// The frontier: the window below it is backed by frames, the window from
    /// it on has never been touched.
    pub current: int,
    /// First address after the window.
    pub end: int,
}

impl HeapView {
    /// The heap on the window from `start` up to `end` before anything was
    /// allocated: empty bins, and the frontier at `start`.
    pub open spec fn empty(start: int, end: int) -> HeapView {
        HeapView {
            bins: Seq::new(BIN_COUNT as nat, |bin: int| Seq::<u64>::empty()),
            start,
            current: start,
            end,
        }
    }

    /// The invariant of the allocator. There are `BIN_COUNT` bins; the
    /// frontier lies in the window; every free chunk ends inside the address
    /// space.
    pub open spec fn wf(self) -> bool {
        &&& self.bins.len() == BIN_COUNT
        &&& 0 <= self.start <= self.current <= self.end <= u64::MAX
        &&& forall|bin: int, index: int|
            0 <= bin < self.bins.len() && 0 <= index < self.bins[bin].len() ==> (
            #[trigger] self.bins[bin][index]) + chunk_size(bin) <= u64::MAX
    }

    /// The heap without the chunk at `index` of bin `bin`.
    pub open spec fn take_chunk(self, bin: int, index: int) -> HeapView {
        HeapView { bins: self.bins.update(bin, self.bins[bin].remove(index)), ..self }
    }

    /// The heap with `chunk` added to bin `bin` as its most recent chunk.
    pub open spec fn give_chunk(self, bin: int, chunk: u64) -> HeapView {
        HeapView { bins: self.bins.update(bin, self.bins[bin].push(chunk)), ..self }
    }

    /// The heap with the first `count` pieces of bin `bin` from `start` on
    /// added to that bin, the highest one as its most recent chunk.
    pub open spec fn give_pieces(self, bin: int, start: int, count: int) -> HeapView {
        HeapView { bins: self.bins.update(bin, self.bins[bin] + pieces(start, count, bin)), ..self }
    }

    /// The frontier rounded up to a multiple of `align`: where a chunk carved
    /// from untouched memory starts.
    pub open spec fn aligned_frontier(self, align: int) -> int {
        align_up_spec(self.current, align)
    }

    /// Number of bytes between the frontier and `aligned_frontier`.
    pub open spec fn gap(self, align: int) -> int {
        self.aligned_frontier(align) - self.current
    }

    /// Whether the gap before a chunk aligned to `align` can be kept as a free
    /// chunk: it is empty or has the size of a bin.
    pub open spec fn gap_placeable(self, align: int) -> bool {
        self.gap(align) == 0 || is_bin_size(self.gap(align))
    }

    /// Where the frontier stands after a chunk of bin `bin` aligned to
    /// `align` was carved: at the end of that chunk.
    pub open spec fn grown_frontier(self, bin: int, align: int) -> int {
        self.aligned_frontier(align) + chunk_size(bin)
    }

    /// Whether the window has room for that growth.
    pub open spec fn growth_fits(self, bin: int, align: int) -> bool {
        self.grown_frontier(bin, align) <= self.end
    }

    /// The first page that has no frame yet. The pages that hold a byte of
    /// the window below the frontier have one: before anything was carved
    /// that is none, afterwards all up to the page of the last byte below
    /// the frontier.
    pub open spec fn first_new_page(self) -> int {
        if self.current == self.start {
            align_down_spec(self.current, PAGE_SIZE as int)
        } else {
            align_up_spec(self.current, PAGE_SIZE as int)
        }
    }

    /// Number of pages that the growth has to back with frames: those from
    /// `first_new_page` on that hold a byte below the new frontier.
    pub open spec fn growth_pages(self, bin: int, align: int) -> nat {
        ((align_up_spec(self.grown_frontier(bin, align), PAGE_SIZE as int)
            - self.first_new_page()) / (PAGE_SIZE as int)) as nat
    }

    /// What an attempt to grow adds to the record of a mapper, given the
    /// record before and after it and the result of the allocation. Without
    /// room in the window the mapper is asked nothing. With room it is asked
    /// for the new pages in rising order, each with the frame that the frame
    /// allocator yields for it, present and writable. It accepted them all
    /// but a page that the result names as refused, which is the last. Where
    /// the frames ran out, it was asked for the pages that got one.
    pub open spec fn growth_log(
        self,
        frames: Seq<Span>,
        bin: int,
        align: int,
        before: Seq<MapRequest>,
        after: Seq<MapRequest>,
        result: Result<u64, AllocError>,
    ) -> bool {
        if !self.growth_fits(bin, align) {
            after == before
        } else {
            match result {
                Err(AllocError::MapFailure { page }) => backing_log(
                    before,
                    after,
                    self.first_new_page(),
                    frames,
                    ((page - self.first_new_page()) / (PAGE_SIZE as int)) as nat,
                    true,
                ),
                _ => backing_log(
                    before,
                    after,
                    self.first_new_page(),
                    frames,
                    allocatable(frames, self.growth_pages(bin, align)),
                    false,
                ),
            }
        }
    }

    /// The heap after the growth: the gap, if there is one, is the most
    /// recent chunk of the bin of its size, and the frontier has moved.
    pub open spec fn grown(self, bin: int, align: int) -> HeapView {
        let kept = if self.gap(align) > 0 {
            self.give_chunk(bin_number(self.gap(align) as nat) as int, self.current as u64)
        } else {
            self
        };
        HeapView { current: self.grown_frontier(bin, align), ..kept }
    }

    /// The heap after the chunk at `index` of bin `parent_bin` was split for
    /// bin `child_bin` and `align`: the chunk has left its bin, and its
    /// pieces but the lowest aligned one, which is handed out, have been
    /// added to bin `child_bin` from the lowest address up.
    pub open spec fn split(self, parent_bin: int, index: int, child_bin: int, align: int) -> HeapView {
        let parent = self.bins[parent_bin][index] as int;
        let picked = first_aligned_child(parent, parent_bin, child_bin, align);
        let taken = self.take_chunk(parent_bin, index);
        HeapView {
            bins: taken.bins.update(
                child_bin,
                taken.bins[child_bin] + children(parent, parent_bin, child_bin).remove(picked),
            ),
            ..taken
        }
    }

    /// The bin whose chunk is split for a request of bin `bin` aligned to
    /// `align`: the lowest bin above `bin` with a splittable chunk.
    pub open spec fn split_bin(self, bin: int, align: int) -> int {
        first_split_bin(self.bins, bin + 1, bin, align)
    }

    /// The last resort of an allocation from bin `bin` with alignment
    /// `align`, when the bin has no aligned chunk and the frontier cannot
    /// grow. The most recent splittable chunk of the lowest bin above `bin`
    /// that has one is split, and its lowest aligned piece is the result.
    /// Where no bin above `bin` has such a chunk, the heap is exhausted and
    /// stays as it is.
    pub open spec fn split_outcome(self, bin: int, align: int) -> (HeapView, Result<u64, AllocError>) {
        let parent_bin = self.split_bin(bin, align);
        if parent_bin < BIN_COUNT {
            let index = newest_splittable(self.bins[parent_bin], parent_bin, bin, align);
            let parent = self.bins[parent_bin][index] as int;
            let picked = first_aligned_child(parent, parent_bin, bin, align);
            (self.split(parent_bin, index, bin, align), Ok(child(parent, picked, bin) as u64))
        } else {
            (self, Err(AllocError::HeapExhausted))
        }
    }

    /// What growing the frontier for a chunk of bin `bin` aligned to `align`
    /// comes to when the mapper accepts every page: the heap, the segments
    /// left in the frame allocator, and the chunk or `HeapExhausted`.
    /// Without room in the window nothing happens. With room, a frame is
    /// taken for each new page; when they do not suffice, the ones taken are
    /// lost and the heap stays as it is. Where no page is new, the growth
    /// succeeds without a frame.
    pub open spec fn growth_outcome(self, frames: Seq<Span>, bin: int, align: int) -> (
        HeapView,
        Seq<Span>,
        Result<u64, AllocError>,
    ) {
        let pages = self.growth_pages(bin, align);
        if !self.growth_fits(bin, align) {
            (self, frames, Err(AllocError::HeapExhausted))
        } else if can_allocate(frames, pages) {
            (
                self.grown(bin, align),
                after_allocations(frames, pages),
                Ok(self.aligned_frontier(align) as u64),
            )
        } else {
            (self, after_allocations(frames, pages), Err(AllocError::HeapExhausted))
        }
    }

    /// Whether an allocation of `size` bytes aligned to `align` gets as far
    /// as the frontier: the request fits a bin, and that bin has no aligned
    /// chunk.
    pub open spec fn reaches_frontier(self, size: int, align: int) -> bool {
        size <= MAX_REQUEST && newest_aligned(self.bins[bin_number(size as nat) as int], align) < 0
    }

    /// What an allocation of `size` bytes aligned to `align` comes to when
    /// the mapper accepts every page. A request beyond `MAX_REQUEST` is
    /// refused. Otherwise the most recent aligned chunk of the request's bin
    /// is taken. Where the bin has none, the frontier grows. Where it cannot,
    /// a larger chunk is split.
    pub open spec fn alloc_outcome(self, frames: Seq<Span>, size: int, align: int) -> (
        HeapView,
        Seq<Span>,
        Result<u64, AllocError>,
    ) {
        let bin = bin_number(size as nat) as int;
        if size > MAX_REQUEST {
            (self, frames, Err(AllocError::OversizeRequest))
        } else if newest_aligned(self.bins[bin], align) >= 0 {
            let index = newest_aligned(self.bins[bin], align);
            (self.take_chunk(bin, index), frames, Ok(self.bins[bin][index]))
        } else {
            let grown = self.growth_outcome(frames, bin, align);
            if grown.2 is Ok {
                grown
            } else {
                let last = self.split_outcome(bin, align);
                (last.0, grown.1, last.1)
            }
        }
    }
}

/// What `newest_aligned` returns is an index of `list` or -1. The chunk at it
/// is aligned, no chunk after it is, and it is -1 only when no chunk is.
pub proof fn lemma_newest_aligned(list: Seq<u64>, align: int)
    ensures
        -1 <= newest_aligned(list, align) < list.len(),
        newest_aligned(list, align) >= 0 ==> list[newest_aligned(list, align)] as int % align == 0,
        forall|later: int|
            newest_aligned(list, align) < later < list.len() ==> (#[trigger] list[later]) as int
                % align != 0,
    decreases list.len(),
{
    if list.len() > 0 && list.last() as int % align != 0 {
        lemma_newest_aligned(list.drop_last(), align);
        assert forall|later: int| newest_aligned(list, align) < later < list.len() implies (
        #[trigger] list[later]) as int % align != 0 by {
            if later < list.len() - 1 {
                assert(list[later] == list.drop_last()[later]);
            }
        }
    }
}

/// Taking a chunk out of a bin keeps the invariant.
pub proof fn lemma_take_chunk_wf(heap: HeapView, bin: int, index: int)
    requires
        heap.wf(),
        0 <= bin < BIN_COUNT,
        0 <= index < heap.bins[bin].len(),
    ensures
        heap.take_chunk(bin, index).wf(),
{
    let after = heap.take_chunk(bin, index);
    assert forall|b: int, i: int| 0 <= b < after.bins.len() && 0 <= i < after.bins[b].len() implies (
    #[trigger] after.bins[b][i]) + chunk_size(b) <= u64::MAX by {
        if b == bin {
            if i < index {
                assert(after.bins[b][i] == heap.bins[b][i]);
            } else {
                assert(after.bins[b][i] == heap.bins[b][i + 1]);
            }
        } else {
            assert(after.bins[b][i] == heap.bins[b][i]);
        }
    }
}

/// Adding a chunk that ends inside the address space keeps the invariant.
pub proof fn lemma_give_chunk_wf(heap: HeapView, bin: int, chunk: u64)
    requires
        heap.wf(),
        0 <= bin < BIN_COUNT,
        chunk + chunk_size(bin) <= u64::MAX,
    ensures
        heap.give_chunk(bin, chunk).wf(),
{
    let after = heap.give_chunk(bin, chunk);
    assert forall|b: int, i: int| 0 <= b < after.bins.len() && 0 <= i < after.bins[b].len() implies (
    #[trigger] after.bins[b][i]) + chunk_size(b) <= u64::MAX by {
        if b == bin && i < heap.bins[b].len() {
            assert(after.bins[b][i] == heap.bins[b][i]);
        } else if b != bin {
            assert(after.bins[b][i] == heap.bins[b][i]);
        }
    }
}

/// Growth that fits the window keeps the invariant, and the chunk it carves
/// lies between the old frontier and the new one.
pub proof fn lemma_grown_wf(heap: HeapView, bin: int, align: int)
    requires
        heap.wf(),
        0 <= bin < BIN_COUNT,
        align > 0,
        heap.gap_placeable(align),
        heap.growth_fits(bin, align),
    ensures
        heap.grown(bin, align).wf(),
        heap.current <= heap.aligned_frontier(align),
        heap.aligned_frontier(align) % align == 0,
        heap.first_new_page() % (PAGE_SIZE as int) == 0,
        heap.first_new_page() <= align_up_spec(heap.grown_frontier(bin, align), PAGE_SIZE as int),
        (align_up_spec(heap.grown_frontier(bin, align), PAGE_SIZE as int)
            - heap.first_new_page()) % (PAGE_SIZE as int) == 0,
{
    lemma_align_up(heap.current, align);
    lemma_align_up(heap.current, PAGE_SIZE as int);
    lemma_align_down(heap.current, PAGE_SIZE as int);
    lemma_align_up(heap.grown_frontier(bin, align), PAGE_SIZE as int);
    lemma_chunk_size_bounds(bin);
    let top = align_up_spec(heap.grown_frontier(bin, align), PAGE_SIZE as int);
    let first = heap.first_new_page();
    assert(first <= top) by {
        if heap.current != heap.start {
            assert(heap.current <= top);
        }
    }
    assert((top - first) % (PAGE_SIZE as int) == 0) by {
        vstd::arithmetic::div_mod::lemma_sub_mod_noop(top, first, PAGE_SIZE as int);
    }
    if heap.gap(align) > 0 {
        let gap_bin = bin_number(heap.gap(align) as nat) as int;
        lemma_give_chunk_wf(heap, gap_bin, heap.current as u64);
    }
}

/// The pages that a growth has to back, counted from the page of the last
/// byte below the new frontier: the page after that one is the new frontier
/// rounded up, and no page is new where `first_new_page` lies above it.
pub proof fn lemma_new_pages(heap: HeapView, bin: int, align: int)
    requires
        heap.wf(),
        0 <= bin < BIN_COUNT,
        align > 0,
        heap.growth_fits(bin, align),
    ensures
        ({
            let last = align_down_spec(heap.grown_frontier(bin, align) - 1, PAGE_SIZE as int);
            let first = heap.first_new_page();
            &&& align_up_spec(heap.grown_frontier(bin, align), PAGE_SIZE as int) == last
                + PAGE_SIZE
            &&& heap.growth_pages(bin, align) == if first <= last {
                (last - first) / (PAGE_SIZE as int) + 1
            } else {
                0
            }
            &&& first <= last ==> first + (heap.growth_pages(bin, align) - 1) * PAGE_SIZE == last
            &&& heap.current == heap.start ==> first <= last
        }),
{
    let grown = heap.grown_frontier(bin, align);
    let last = align_down_spec(grown - 1, PAGE_SIZE as int);
    let first = heap.first_new_page();
    let top = align_up_spec(grown, PAGE_SIZE as int);
    lemma_align_up(heap.current, align);
    lemma_align_up(heap.current, PAGE_SIZE as int);
    lemma_align_down(heap.current, PAGE_SIZE as int);
    lemma_align_up(grown, PAGE_SIZE as int);
    lemma_align_down(grown - 1, PAGE_SIZE as int);
    lemma_chunk_size_bounds(bin);
    assert(top == last + PAGE_SIZE);
    assert(first % (PAGE_SIZE as int) == 0);
    assert(last % (PAGE_SIZE as int) == 0);
    if first <= last {
        let distance = last - first;
        assert(distance % (PAGE_SIZE as int) == 0) by {
            vstd::arithmetic::div_mod::lemma_sub_mod_noop(last, first, PAGE_SIZE as int);
        }
        assert(distance == PAGE_SIZE * (distance / (PAGE_SIZE as int))) by {
            vstd::arithmetic::div_mod::lemma_fundamental_div_mod(distance, PAGE_SIZE as int);
        }
    } else {
        assert(first >= last + PAGE_SIZE);
        assert(first <= top) by {
            if heap.current != heap.start {
                assert(heap.current <= top);
            }
        }
    }
}

/// Every bin's chunk size lies between 8 bytes and `MAX_REQUEST`.
pub proof fn lemma_chunk_size_bounds(bin: int)
    requires
        0 <= bin < BIN_COUNT,
    ensures
        8 <= chunk_size(bin) <= MAX_REQUEST,
{
    vstd::arithmetic::power2::lemma2_to64();
    crate::memory::allocator::size_class::lemma_bin_size_monotonic(0, bin as nat);
    crate::memory::allocator::size_class::lemma_bin_size_monotonic(bin as nat, 29);
}

/// A chunk of bin `parent_bin` is made up of `child_count` chunks of a bin
/// `child_bin` that is not above it.
pub proof fn lemma_child_count(parent_bin: int, child_bin: int)
    requires
        0 <= child_bin <= parent_bin < BIN_COUNT,
    ensures
        chunk_size(parent_bin) == child_count(parent_bin, child_bin) * chunk_size(child_bin),
        1 <= child_count(parent_bin, child_bin) <= 0x2000_0000,
{
    vstd::arithmetic::power2::lemma2_to64();
    vstd::arithmetic::power2::lemma_pow2_adds((parent_bin - child_bin) as nat, (child_bin + 3) as nat);
    assert((parent_bin - child_bin) as nat + (child_bin + 3) as nat == (parent_bin + 3) as nat);
    vstd::arithmetic::power2::lemma_pow2_pos((parent_bin - child_bin) as nat);
    if parent_bin - child_bin < 29 {
        vstd::arithmetic::power2::lemma_pow2_strictly_increases((parent_bin - child_bin) as nat, 29);
    }
}

/// What `first_aligned_child_from` returns lies between `from` and `count`.
/// The piece at it, if it is below `count`, is aligned, and no piece from
/// `from` up to it is.
pub proof fn lemma_first_aligned_child_from(
    parent: int,
    from: int,
    count: int,
    child_bin: int,
    align: int,
)
    requires
        from <= count,
    ensures
        from <= first_aligned_child_from(parent, from, count, child_bin, align) <= count,
        first_aligned_child_from(parent, from, count, child_bin, align) < count ==> child(
            parent,
            first_aligned_child_from(parent, from, count, child_bin, align),
            child_bin,
        ) % align == 0,
        forall|index: int|
            from <= index < first_aligned_child_from(parent, from, count, child_bin, align)
                ==> #[trigger] child(parent, index, child_bin) % align != 0,
    decreases count - from,
{
    if from < count && child(parent, from, child_bin) % align != 0 {
        lemma_first_aligned_child_from(parent, from + 1, count, child_bin, align);
    }
}

/// What `newest_splittable` returns is an index of `list` or -1. The chunk at
/// it is splittable, and no chunk after it is.
pub proof fn lemma_newest_splittable(list: Seq<u64>, parent_bin: int, child_bin: int, align: int)
    ensures
        -1 <= newest_splittable(list, parent_bin, child_bin, align) < list.len(),
        newest_splittable(list, parent_bin, child_bin, align) >= 0 ==> splittable(
            list[newest_splittable(list, parent_bin, child_bin, align)] as int,
            parent_bin,
            child_bin,
            align,
        ),
        forall|later: int|
            newest_splittable(list, parent_bin, child_bin, align) < later < list.len()
                ==> !splittable((#[trigger] list[later]) as int, parent_bin, child_bin, align),
    decreases list.len(),
{
    if list.len() > 0 && !splittable(list.last() as int, parent_bin, child_bin, align) {
        lemma_newest_splittable(list.drop_last(), parent_bin, child_bin, align);
        assert forall|later: int|
            newest_splittable(list, parent_bin, child_bin, align) < later
                < list.len() implies !splittable(
            (#[trigger] list[later]) as int,
            parent_bin,
            child_bin,
            align,
        ) by {
            if later < list.len() - 1 {
                assert(list[later] == list.drop_last()[later]);
            }
        }
    }
}

/// What `first_split_bin` returns lies between `from` and `BIN_COUNT`,
/// where `from` is not above `BIN_COUNT`, and is `BIN_COUNT` otherwise. The
/// bin at it, if it is a bin, holds a splittable chunk, and no bin from
/// `from` up to it does.
pub proof fn lemma_first_split_bin(bins: Seq<Seq<u64>>, from: int, child_bin: int, align: int)
    ensures
        first_split_bin(bins, from, child_bin, align) <= BIN_COUNT,
        from <= BIN_COUNT ==> from <= first_split_bin(bins, from, child_bin, align),
        first_split_bin(bins, from, child_bin, align) < BIN_COUNT ==> newest_splittable(
            bins[first_split_bin(bins, from, child_bin, align)],
            first_split_bin(bins, from, child_bin, align),
            child_bin,
            align,
        ) >= 0,
        forall|bin: int|
            from <= bin < first_split_bin(bins, from, child_bin, align) ==> newest_splittable(
                #[trigger] bins[bin],
                bin,
                child_bin,
                align,
            ) < 0,
    decreases BIN_COUNT - from,
{
    if from < BIN_COUNT && newest_splittable(bins[from], from, child_bin, align) < 0 {
        lemma_first_split_bin(bins, from + 1, child_bin, align);
    }
}

/// Adding pieces that end inside the address space keeps the invariant.
pub proof fn lemma_give_pieces_wf(heap: HeapView, bin: int, start: int, count: int)
    requires
        heap.wf(),
        0 <= bin < BIN_COUNT,
        0 <= start,
        0 <= count,
        start + count * chunk_size(bin) <= u64::MAX,
    ensures
        heap.give_pieces(bin, start, count).wf(),
{
    let after = heap.give_pieces(bin, start, count);
    let size = chunk_size(bin);
    lemma_chunk_size_bounds(bin);
    assert forall|b: int, i: int| 0 <= b < after.bins.len() && 0 <= i < after.bins[b].len() implies (
    #[trigger] after.bins[b][i]) + chunk_size(b) <= u64::MAX by {
        if b == bin && i < heap.bins[b].len() {
            assert(after.bins[b][i] == heap.bins[b][i]);
        } else if b != bin {
            assert(after.bins[b][i] == heap.bins[b][i]);
        } else {
            let index = i - heap.bins[b].len();
            assert(after.bins[b][i] == pieces(start, count, bin)[index]);
            assert(0 <= index * size && index * size + size <= count * size) by (nonlinear_arith)
                requires
                    0 <= index < count,
                    size > 0,
            ;
        }
    }
}

} // verus!
