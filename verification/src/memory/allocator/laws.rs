//! What is proved of the heap allocator as a whole: that blocks handed out
//! lie in the window, are aligned and large enough, and never overlap one
//! another for as long as callers free only what they were given.
use vstd::prelude::*;
use crate::memory::allocator::model::{
    child, child_count, children, chunk_size, first_aligned_child,
    lemma_child_count, lemma_chunk_size_bounds, lemma_first_aligned_child_from,
    lemma_first_split_bin, lemma_grown_wf, lemma_newest_aligned, lemma_newest_splittable,
    newest_aligned, newest_splittable, splittable, AllocError, HeapView,
};
use crate::memory::allocator::size_class::{
    bin_number, lemma_bin_number_in_range, lemma_bin_size_covers_request, BIN_COUNT, MAX_REQUEST,
};
use crate::memory::frame_allocator::Span;

verus! {

/// A block of memory: `size` bytes from `address` on.
pub struct Block {
    pub address: int,
    pub size: int,
}

impl Block {
    /// The first address after the block.
    pub open spec fn end(self) -> int {
        self.address + self.size
    }

    /// Whether the two blocks share no byte.
    pub open spec fn apart_from(self, other: Block) -> bool {
        self.end() <= other.address || other.end() <= self.address
    }

    /// Whether the block lies in the range from `low` up to `high`.
    pub open spec fn inside(self, low: int, high: int) -> bool {
        low <= self.address && self.end() <= high
    }
}

impl HeapView {
    /// Whether bin `bin` has a chunk at `index`.
    pub open spec fn holds(self, bin: int, index: int) -> bool {
        0 <= bin < self.bins.len() && 0 <= index < self.bins[bin].len()
    }

    /// The free chunk at `index` of bin `bin`, as a block.
    pub open spec fn chunk(self, bin: int, index: int) -> Block {
        Block { address: self.bins[bin][index] as int, size: chunk_size(bin) }
    }

    /// Every free chunk lies between the start of the window and the
    /// frontier.
    pub open spec fn chunks_in_window(self) -> bool {
        forall|bin: int, index: int| #[trigger]
            self.holds(bin, index) ==> self.chunk(bin, index).inside(self.start, self.current)
    }

    /// No two free chunks share a byte.
    pub open spec fn chunks_apart(self) -> bool {
        forall|bin: int, index: int, other_bin: int, other_index: int|
            #[trigger] self.holds(bin, index) && #[trigger] self.holds(other_bin, other_index) && (
            bin != other_bin || index != other_index) ==> self.chunk(bin, index).apart_from(
                self.chunk(other_bin, other_index),
            )
    }

    /// The blocks of `live` are not empty, lie between the start of the
    /// window and the frontier, and share no byte with one another or with a
    /// free chunk.
    pub open spec fn clear_of(self, live: Set<Block>) -> bool {
        &&& forall|block: Block| #[trigger]
            live.contains(block) ==> block.size > 0 && block.inside(self.start, self.current)
        &&& forall|block: Block, bin: int, index: int|
            #[trigger] live.contains(block) && #[trigger] self.holds(bin, index)
                ==> block.apart_from(self.chunk(bin, index))
        &&& forall|block: Block, other: Block|
            #[trigger] live.contains(block) && #[trigger] live.contains(other) && block != other
                ==> block.apart_from(other)
    }

    /// The heap is consistent with `live` being the blocks that are in use:
    /// its invariant holds, and free chunks and blocks in use all lie below
    /// the frontier and are all apart.
    pub open spec fn sound(self, live: Set<Block>) -> bool {
        &&& self.wf()
        &&& self.chunks_in_window()
        &&& self.chunks_apart()
        &&& self.clear_of(live)
    }
}

/// A fresh heap is consistent with no block being in use.
pub proof fn lemma_empty_heap_sound(start: int, end: int)
    requires
        0 <= start <= end <= u64::MAX,
    ensures
        HeapView::empty(start, end).sound(Set::<Block>::empty()),
{
}

/// Taking a free chunk for use keeps the heap consistent: the chunk was not
/// in use, and shares no byte with a block that is.
pub proof fn lemma_take_chunk_sound(heap: HeapView, live: Set<Block>, bin: int, index: int)
    requires
        heap.sound(live),
        heap.holds(bin, index),
    ensures
        !live.contains(heap.chunk(bin, index)),
        forall|block: Block| #[trigger]
            live.contains(block) ==> block.apart_from(heap.chunk(bin, index)),
        heap.take_chunk(bin, index).sound(live.insert(heap.chunk(bin, index))),
{
    let taken = heap.chunk(bin, index);
    let after = heap.take_chunk(bin, index);
    lemma_chunk_size_bounds(bin);
    crate::memory::allocator::model::lemma_take_chunk_wf(heap, bin, index);
    assert forall|b: int, i: int| #[trigger] after.holds(b, i) implies heap.holds(
        b,
        origin_after_take(bin, index, b, i),
    ) && after.chunk(b, i) == heap.chunk(b, origin_after_take(bin, index, b, i)) by {}
    assert(after.chunks_in_window()) by {
        assert forall|b: int, i: int| #[trigger] after.holds(b, i) implies after.chunk(b, i).inside(
            after.start,
            after.current,
        ) by {
            assert(heap.holds(b, origin_after_take(bin, index, b, i)));
        }
    }
    assert(after.chunks_apart()) by {
        assert forall|b: int, i: int, c: int, j: int|
            #[trigger] after.holds(b, i) && #[trigger] after.holds(c, j) && (b != c || i
                != j) implies after.chunk(b, i).apart_from(after.chunk(c, j)) by {
            assert(heap.holds(b, origin_after_take(bin, index, b, i)));
            assert(heap.holds(c, origin_after_take(bin, index, c, j)));
        }
    }
    let more = live.insert(taken);
    assert(after.clear_of(more)) by {
        assert forall|block: Block| #[trigger] more.contains(block) implies block.size > 0
            && block.inside(after.start, after.current) by {}
        assert forall|block: Block, b: int, i: int|
            #[trigger] more.contains(block) && #[trigger] after.holds(b, i) implies block.apart_from(
            after.chunk(b, i),
        ) by {
            assert(heap.holds(b, origin_after_take(bin, index, b, i)));
        }
        assert forall|block: Block, other: Block|
            #[trigger] more.contains(block) && #[trigger] more.contains(other) && block
                != other implies block.apart_from(other) by {}
    }
}

/// Where the chunk at `index` of bin `bin`, in the heap without the chunk at
/// `taken_index` of bin `taken_bin`, stood before that chunk was taken.
pub open spec fn origin_after_take(taken_bin: int, taken_index: int, bin: int, index: int) -> int {
    if bin == taken_bin && index >= taken_index {
        index + 1
    } else {
        index
    }
}

/// Adding a free chunk that lies below the frontier, and apart from every
/// free chunk and every block in use, keeps the heap consistent.
pub proof fn lemma_add_chunk_sound(heap: HeapView, live: Set<Block>, bin: int, chunk: u64)
    requires
        heap.sound(live),
        0 <= bin < BIN_COUNT,
        (Block { address: chunk as int, size: chunk_size(bin) }).inside(heap.start, heap.current),
        forall|b: int, i: int| #[trigger]
            heap.holds(b, i) ==> heap.chunk(b, i).apart_from(
                Block { address: chunk as int, size: chunk_size(bin) },
            ),
        forall|block: Block| #[trigger]
            live.contains(block) ==> block.apart_from(
                Block { address: chunk as int, size: chunk_size(bin) },
            ),
    ensures
        heap.give_chunk(bin, chunk).sound(live),
{
    let added = Block { address: chunk as int, size: chunk_size(bin) };
    let after = heap.give_chunk(bin, chunk);
    crate::memory::allocator::model::lemma_give_chunk_wf(heap, bin, chunk);
    assert forall|b: int, i: int| #[trigger] after.holds(b, i) implies (heap.holds(b, i)
        && after.chunk(b, i) == heap.chunk(b, i)) || (b == bin && i == heap.bins[bin].len()
        && after.chunk(b, i) == added) by {}
    assert(after.chunks_in_window()) by {
        assert forall|b: int, i: int| #[trigger] after.holds(b, i) implies after.chunk(b, i).inside(
            after.start,
            after.current,
        ) by {
            if heap.holds(b, i) {
            }
        }
    }
    assert(after.chunks_apart()) by {
        assert forall|b: int, i: int, c: int, j: int|
            #[trigger] after.holds(b, i) && #[trigger] after.holds(c, j) && (b != c || i
                != j) implies after.chunk(b, i).apart_from(after.chunk(c, j)) by {
            if heap.holds(b, i) {
            }
            if heap.holds(c, j) {
            }
        }
    }
    assert(after.clear_of(live)) by {
        assert forall|block: Block, b: int, i: int|
            #[trigger] live.contains(block) && #[trigger] after.holds(b, i) implies block.apart_from(
            after.chunk(b, i),
        ) by {
            if heap.holds(b, i) {
            }
        }
    }
}

/// Freeing a block that is in use, with a size of the class it was given
/// for, keeps the heap consistent with the other blocks in use.
pub proof fn lemma_dealloc_sound(heap: HeapView, live: Set<Block>, ptr: u64, size: int)
    requires
        heap.sound(live),
        0 < size <= MAX_REQUEST,
        live.contains(
            Block { address: ptr as int, size: chunk_size(bin_number(size as nat) as int) },
        ),
    ensures
        heap.give_chunk(bin_number(size as nat) as int, ptr).sound(
            live.remove(
                Block { address: ptr as int, size: chunk_size(bin_number(size as nat) as int) },
            ),
        ),
{
    let bin = bin_number(size as nat) as int;
    lemma_bin_number_in_range(size as nat);
    let freed = Block { address: ptr as int, size: chunk_size(bin) };
    let rest = live.remove(freed);
    assert(heap.clear_of(rest));
    assert forall|block: Block| #[trigger] rest.contains(block) implies block.apart_from(freed) by {
        assert(live.contains(block) && live.contains(freed) && block != freed);
    }
    assert forall|b: int, i: int| #[trigger] heap.holds(b, i) implies heap.chunk(b, i).apart_from(
        freed,
    ) by {
        assert(live.contains(freed));
    }
    lemma_add_chunk_sound(heap, rest, bin, ptr);
}

/// The heap with the frontier moved to `frontier`.
pub open spec fn with_frontier(heap: HeapView, frontier: int) -> HeapView {
    HeapView { current: frontier, ..heap }
}

/// Carving a chunk at the frontier keeps the heap consistent: the chunk lies
/// in the window, is aligned, and shares no byte with a block in use.
pub proof fn lemma_grown_sound(heap: HeapView, live: Set<Block>, bin: int, align: int)
    requires
        heap.sound(live),
        0 <= bin < BIN_COUNT,
        align > 0,
        heap.gap_placeable(align),
        heap.growth_fits(bin, align),
    ensures
        (Block { address: heap.aligned_frontier(align), size: chunk_size(bin) }).inside(
            heap.current,
            heap.grown_frontier(bin, align),
        ),
        heap.aligned_frontier(align) % align == 0,
        heap.grown_frontier(bin, align) <= heap.end,
        !live.contains(Block { address: heap.aligned_frontier(align), size: chunk_size(bin) }),
        forall|block: Block| #[trigger]
            live.contains(block) ==> block.apart_from(
                Block { address: heap.aligned_frontier(align), size: chunk_size(bin) },
            ),
        heap.grown(bin, align).sound(
            live.insert(Block { address: heap.aligned_frontier(align), size: chunk_size(bin) }),
        ),
{
    lemma_grown_wf(heap, bin, align);
    lemma_chunk_size_bounds(bin);
    let carved = Block { address: heap.aligned_frontier(align), size: chunk_size(bin) };
    let frontier = heap.grown_frontier(bin, align);
    let raised = with_frontier(heap, frontier);
    assert(raised.sound(live)) by {
        assert forall|b: int, i: int| #[trigger] raised.holds(b, i) implies raised.chunk(b, i).inside(
            raised.start,
            raised.current,
        ) by {
            assert(heap.holds(b, i));
        }
        assert forall|b: int, i: int, c: int, j: int|
            #[trigger] raised.holds(b, i) && #[trigger] raised.holds(c, j) && (b != c || i
                != j) implies raised.chunk(b, i).apart_from(raised.chunk(c, j)) by {
            assert(heap.holds(b, i) && heap.holds(c, j));
        }
        assert forall|block: Block, b: int, i: int|
            #[trigger] live.contains(block) && #[trigger] raised.holds(b, i) implies block.apart_from(
            raised.chunk(b, i),
        ) by {
            assert(heap.holds(b, i));
        }
    }
    let kept = if heap.gap(align) > 0 {
        raised.give_chunk(bin_number(heap.gap(align) as nat) as int, heap.current as u64)
    } else {
        raised
    };
    assert(kept == heap.grown(bin, align));
    if heap.gap(align) > 0 {
        let gap_bin = bin_number(heap.gap(align) as nat) as int;
        assert forall|b: int, i: int| #[trigger] raised.holds(b, i) implies raised.chunk(
            b,
            i,
        ).apart_from(Block { address: heap.current, size: chunk_size(gap_bin) }) by {
            assert(heap.holds(b, i));
        }
        lemma_add_chunk_sound(raised, live, gap_bin, heap.current as u64);
    }
    assert(kept.sound(live));
    let more = live.insert(carved);
    assert(kept.clear_of(more)) by {
        assert forall|block: Block, b: int, i: int|
            #[trigger] more.contains(block) && #[trigger] kept.holds(b, i) implies block.apart_from(
            kept.chunk(b, i),
        ) by {
            if block == carved {
                if heap.holds(b, i) {
                    assert(kept.chunk(b, i) == heap.chunk(b, i));
                }
            }
        }
    }
}

/// The pieces of a chunk lie in the chunk, from the lowest address up and
/// without sharing a byte.
pub proof fn lemma_pieces_laid_out(parent: int, parent_bin: int, child_bin: int)
    requires
        0 <= child_bin <= parent_bin < BIN_COUNT,
    ensures
        forall|index: int|
            0 <= index < child_count(parent_bin, child_bin) ==> parent <= #[trigger] child(
                parent,
                index,
                child_bin,
            ) && child(parent, index, child_bin) + chunk_size(child_bin) <= parent + chunk_size(
                parent_bin,
            ),
        forall|lower: int, upper: int|
            0 <= lower < upper ==> #[trigger] child(parent, lower, child_bin) + chunk_size(
                child_bin,
            ) <= #[trigger] child(parent, upper, child_bin),
{
    lemma_child_count(parent_bin, child_bin);
    lemma_chunk_size_bounds(child_bin);
    let size = chunk_size(child_bin);
    let count = child_count(parent_bin, child_bin);
    assert forall|index: int| 0 <= index < count implies parent <= #[trigger] child(
        parent,
        index,
        child_bin,
    ) && child(parent, index, child_bin) + size <= parent + chunk_size(parent_bin) by {
        assert(0 <= index * size && index * size + size <= count * size) by (nonlinear_arith)
            requires
                0 <= index < count,
                size > 0,
        ;
    }
    assert forall|lower: int, upper: int| 0 <= lower < upper implies #[trigger] child(
        parent,
        lower,
        child_bin,
    ) + size <= #[trigger] child(parent, upper, child_bin) by {
        assert(lower * size + size <= upper * size) by (nonlinear_arith)
            requires
                0 <= lower < upper,
                size > 0,
        ;
    }
}

/// The piece that stands at `index` among the pieces of a chunk once the
/// piece at `picked` has been taken out of them.
pub open spec fn piece_after_pick(picked: int, index: int) -> int {
    if index < picked {
        index
    } else {
        index + 1
    }
}

/// Splitting a free chunk and taking its lowest aligned piece for use keeps
/// the heap consistent: the piece lies below the frontier, is aligned, and
/// shares no byte with a block in use.
pub proof fn lemma_split_sound(
    heap: HeapView,
    live: Set<Block>,
    parent_bin: int,
    index: int,
    child_bin: int,
    align: int,
)
    requires
        heap.sound(live),
        heap.holds(parent_bin, index),
        0 <= child_bin < parent_bin < BIN_COUNT,
        align > 0,
        splittable(heap.bins[parent_bin][index] as int, parent_bin, child_bin, align),
    ensures
        ({
            let parent = heap.bins[parent_bin][index] as int;
            let picked = first_aligned_child(parent, parent_bin, child_bin, align);
            let piece = Block {
                address: child(parent, picked, child_bin),
                size: chunk_size(child_bin),
            };
            &&& piece.inside(heap.start, heap.current)
            &&& piece.address % align == 0
            &&& !live.contains(piece)
            &&& forall|block: Block| #[trigger] live.contains(block) ==> block.apart_from(piece)
            &&& heap.split(parent_bin, index, child_bin, align).sound(live.insert(piece))
        }),
{
    let parent = heap.bins[parent_bin][index] as int;
    let count = child_count(parent_bin, child_bin);
    let size = chunk_size(child_bin);
    let picked = first_aligned_child(parent, parent_bin, child_bin, align);
    let piece = Block { address: child(parent, picked, child_bin), size };
    let whole = heap.chunk(parent_bin, index);
    let taken = heap.take_chunk(parent_bin, index);
    let after = heap.split(parent_bin, index, child_bin, align);
    let old_len = taken.bins[child_bin].len() as int;
    let kids = children(parent, parent_bin, child_bin).remove(picked);
    let more = live.insert(piece);

    lemma_first_aligned_child_from(parent, 0, count, child_bin, align);
    lemma_child_count(parent_bin, child_bin);
    lemma_chunk_size_bounds(child_bin);
    lemma_chunk_size_bounds(parent_bin);
    lemma_pieces_laid_out(parent, parent_bin, child_bin);
    lemma_take_chunk_sound(heap, live, parent_bin, index);
    assert(live.insert(whole).contains(whole));
    assert forall|b: int, i: int| #[trigger] taken.holds(b, i) implies taken.chunk(b, i).apart_from(
        whole,
    ) by {
        assert(whole.apart_from(taken.chunk(b, i)));
    }
    assert(whole.inside(heap.start, heap.current));
    assert(parent <= child(parent, picked, child_bin));

    // Every chunk of the new heap is a chunk of the heap without the parent,
    // or one of the pieces that were not picked.
    assert forall|b: int, i: int| #[trigger] after.holds(b, i) implies (taken.holds(b, i)
        && after.chunk(b, i) == taken.chunk(b, i)) || (b == child_bin && old_len <= i < old_len
        + count - 1 && after.chunk(b, i) == Block {
        address: child(parent, piece_after_pick(picked, i - old_len), child_bin),
        size,
    }) by {
        if b == child_bin && i >= old_len {
            let at = piece_after_pick(picked, i - old_len);
            assert(after.bins[b][i] == kids[i - old_len]);
            assert(kids[i - old_len] == children(parent, parent_bin, child_bin)[at]);
            assert(parent <= child(parent, at, child_bin));
        }
    }
    assert(after.wf()) by {
        assert forall|b: int, i: int|
            0 <= b < after.bins.len() && 0 <= i < after.bins[b].len() implies (
        #[trigger] after.bins[b][i]) + chunk_size(b) <= u64::MAX by {
            assert(after.holds(b, i));
            if taken.holds(b, i) {
                assert(taken.bins[b][i] == after.bins[b][i]);
            } else {
                let at = piece_after_pick(picked, i - old_len);
                assert(parent <= child(parent, at, child_bin));
            }
        }
    }
    assert(after.chunks_in_window()) by {
        assert forall|b: int, i: int| #[trigger] after.holds(b, i) implies after.chunk(b, i).inside(
            after.start,
            after.current,
        ) by {
            if taken.holds(b, i) {
            } else {
                let at = piece_after_pick(picked, i - old_len);
                assert(parent <= child(parent, at, child_bin));
            }
        }
    }
    assert(after.chunks_apart()) by {
        assert forall|b: int, i: int, c: int, j: int|
            #[trigger] after.holds(b, i) && #[trigger] after.holds(c, j) && (b != c || i
                != j) implies after.chunk(b, i).apart_from(after.chunk(c, j)) by {
            let first_old = taken.holds(b, i) && after.chunk(b, i) == taken.chunk(b, i);
            let second_old = taken.holds(c, j) && after.chunk(c, j) == taken.chunk(c, j);
            let at = piece_after_pick(picked, i - old_len);
            let other_at = piece_after_pick(picked, j - old_len);
            if first_old && second_old {
            } else if first_old {
                assert(parent <= child(parent, other_at, child_bin));
                assert(taken.chunk(b, i).apart_from(whole));
            } else if second_old {
                assert(parent <= child(parent, at, child_bin));
                assert(taken.chunk(c, j).apart_from(whole));
            } else {
                assert(at != other_at);
                if at < other_at {
                    assert(child(parent, at, child_bin) + size <= child(
                        parent,
                        other_at,
                        child_bin,
                    ));
                } else {
                    assert(child(parent, other_at, child_bin) + size <= child(
                        parent,
                        at,
                        child_bin,
                    ));
                }
            }
        }
    }
    assert forall|block: Block| #[trigger] live.contains(block) implies block.apart_from(piece) by {
        assert(block.apart_from(whole));
    }
    assert(!live.contains(piece)) by {
        if live.contains(piece) {
            assert(piece.apart_from(whole));
        }
    }
    assert(after.clear_of(more)) by {
        assert forall|block: Block| #[trigger] more.contains(block) implies block.size > 0
            && block.inside(after.start, after.current) by {}
        assert forall|block: Block, b: int, i: int|
            #[trigger] more.contains(block) && #[trigger] after.holds(b, i) implies block.apart_from(
            after.chunk(b, i),
        ) by {
            let is_old = taken.holds(b, i) && after.chunk(b, i) == taken.chunk(b, i);
            let at = piece_after_pick(picked, i - old_len);
            if block == piece {
                if is_old {
                    assert(taken.chunk(b, i).apart_from(whole));
                } else {
                    assert(at != picked);
                    if at < picked {
                        assert(child(parent, at, child_bin) + size <= child(
                            parent,
                            picked,
                            child_bin,
                        ));
                    } else {
                        assert(child(parent, picked, child_bin) + size <= child(
                            parent,
                            at,
                            child_bin,
                        ));
                    }
                }
            } else {
                assert(live.contains(block));
                if is_old {
                    assert(live.insert(whole).contains(block));
                } else {
                    assert(parent <= child(parent, at, child_bin));
                    assert(block.apart_from(whole));
                }
            }
        }
        assert forall|block: Block, other: Block|
            #[trigger] more.contains(block) && #[trigger] more.contains(other) && block
                != other implies block.apart_from(other) by {}
    }
}

/// The block that an allocation of `size` bytes at `address` occupies: the
/// whole chunk of the bin that serves the request.
pub open spec fn allocated_block(address: int, size: int) -> Block {
    Block { address, size: chunk_size(bin_number(size as nat) as int) }
}

/// Whatever an allocation returns is a multiple of the alignment asked for,
/// and the chunks of its bin hold the bytes asked for. The window stays; the
/// frontier never moves down, and a failed allocation leaves the heap as it
/// was.
pub proof fn lemma_allocation_aligned(heap: HeapView, frames: Seq<Span>, size: int, align: int)
    requires
        heap.wf(),
        size > 0,
        align > 0,
        heap.reaches_frontier(size, align) ==> heap.gap_placeable(align),
    ensures
        chunk_size(bin_number(size as nat) as int) >= size,
        heap.alloc_outcome(frames, size, align).0.start == heap.start,
        heap.alloc_outcome(frames, size, align).0.end == heap.end,
        heap.alloc_outcome(frames, size, align).0.current >= heap.current,
        match heap.alloc_outcome(frames, size, align).2 {
            Ok(address) => address as int % align == 0,
            Err(_) => heap.alloc_outcome(frames, size, align).0 == heap,
        },
{
    let bin = bin_number(size as nat) as int;
    lemma_bin_number_in_range(size as nat);
    lemma_bin_size_covers_request(size as nat);
    if size > MAX_REQUEST {
    } else if newest_aligned(heap.bins[bin], align) >= 0 {
        lemma_newest_aligned(heap.bins[bin], align);
    } else {
        let grown = heap.growth_outcome(frames, bin, align);
        if grown.2 is Ok {
            lemma_grown_wf(heap, bin, align);
            lemma_chunk_size_bounds(bin);
        } else {
            let parent_bin = heap.split_bin(bin, align);
            lemma_first_split_bin(heap.bins, bin + 1, bin, align);
            if parent_bin < BIN_COUNT {
                let index = newest_splittable(heap.bins[parent_bin], parent_bin, bin, align);
                lemma_newest_splittable(heap.bins[parent_bin], parent_bin, bin, align);
                let parent = heap.bins[parent_bin][index] as int;
                lemma_pieces_laid_out(parent, parent_bin, bin);
                lemma_first_aligned_child_from(parent, 0, child_count(parent_bin, bin), bin, align);
                let picked = first_aligned_child(parent, parent_bin, bin, align);
                assert(parent <= child(parent, picked, bin));
            }
        }
    }
}

/// An allocation keeps the heap consistent. Let `live` be the blocks in use,
/// with which the heap is consistent. When the allocation succeeds, its
/// block is aligned, lies in the window, holds the bytes asked for, shares no
/// byte with a block of `live`, and the heap is consistent with `live` and
/// the new block together. When it fails, the heap is as it was.
pub proof fn lemma_allocation_sound(
    heap: HeapView,
    live: Set<Block>,
    frames: Seq<Span>,
    size: int,
    align: int,
)
    requires
        heap.sound(live),
        size > 0,
        align > 0,
        heap.reaches_frontier(size, align) ==> heap.gap_placeable(align),
    ensures
        match heap.alloc_outcome(frames, size, align).2 {
            Ok(address) => {
                let block = allocated_block(address as int, size);
                let after = heap.alloc_outcome(frames, size, align).0;
                &&& address as int % align == 0
                &&& block.size >= size
                &&& block.inside(heap.start, after.current)
                &&& heap.current <= after.current <= heap.end
                &&& after.start == heap.start && after.end == heap.end
                &&& !live.contains(block)
                &&& forall|other: Block| #[trigger] live.contains(other) ==> other.apart_from(block)
                &&& after.sound(live.insert(block))
            },
            Err(_) => heap.alloc_outcome(frames, size, align).0 == heap,
        },
{
    let bin = bin_number(size as nat) as int;
    lemma_bin_number_in_range(size as nat);
    lemma_bin_size_covers_request(size as nat);
    if size > MAX_REQUEST {
    } else if newest_aligned(heap.bins[bin], align) >= 0 {
        let index = newest_aligned(heap.bins[bin], align);
        lemma_newest_aligned(heap.bins[bin], align);
        assert(heap.holds(bin, index));
        lemma_take_chunk_sound(heap, live, bin, index);
    } else {
        let grown = heap.growth_outcome(frames, bin, align);
        if grown.2 is Ok {
            lemma_grown_sound(heap, live, bin, align);
            lemma_grown_wf(heap, bin, align);
            lemma_chunk_size_bounds(bin);
        } else {
            let parent_bin = heap.split_bin(bin, align);
            lemma_first_split_bin(heap.bins, bin + 1, bin, align);
            if parent_bin < BIN_COUNT {
                let index = newest_splittable(heap.bins[parent_bin], parent_bin, bin, align);
                lemma_newest_splittable(heap.bins[parent_bin], parent_bin, bin, align);
                assert(heap.holds(parent_bin, index));
                lemma_split_sound(heap, live, parent_bin, index, bin, align);
                lemma_pieces_laid_out(heap.bins[parent_bin][index] as int, parent_bin, bin);
                lemma_first_aligned_child_from(
                    heap.bins[parent_bin][index] as int,
                    0,
                    child_count(parent_bin, bin),
                    bin,
                    align,
                );
            }
        }
    }
}

/// A call of the heap: an allocation, with the segments that the frame
/// allocator holds when it is made, or the return of a block.
pub enum HeapCall {
    Allocate { frames: Seq<Span>, size: int, align: int },
    Free { ptr: u64, size: int },
}

/// Whether a caller may make `call` of `heap` while the blocks of `live` are
/// in use. An allocation asks for at least one byte with an alignment above
/// zero, and the gap that it opens at the frontier can be kept. A block that
/// is returned is in use, and is returned with a size of the class that it
/// was given for.
pub open spec fn call_admitted(heap: HeapView, live: Set<Block>, call: HeapCall) -> bool {
    match call {
        HeapCall::Allocate { frames, size, align } => {
            &&& size > 0
            &&& align > 0
            &&& heap.reaches_frontier(size, align) ==> heap.gap_placeable(align)
        },
        HeapCall::Free { ptr, size } => {
            &&& 0 < size <= MAX_REQUEST
            &&& live.contains(allocated_block(ptr as int, size))
        },
    }
}

/// The heap and the blocks in use after `call`, where the mapper accepts
/// every page. (Where it refuses one, the heap and the blocks stay as they
/// are.)
pub open spec fn after_call(heap: HeapView, live: Set<Block>, call: HeapCall) -> (
    HeapView,
    Set<Block>,
) {
    match call {
        HeapCall::Allocate { frames, size, align } => {
            let outcome = heap.alloc_outcome(frames, size, align);
            match outcome.2 {
                Ok(address) => (outcome.0, live.insert(allocated_block(address as int, size))),
                Err(_) => (outcome.0, live),
            }
        },
        HeapCall::Free { ptr, size } => (
            heap.give_chunk(bin_number(size as nat) as int, ptr),
            live.remove(allocated_block(ptr as int, size)),
        ),
    }
}

/// Whether a caller may make `calls` one after the other, each of the heap
/// as the calls before it left it.
pub open spec fn calls_admitted(heap: HeapView, live: Set<Block>, calls: Seq<HeapCall>) -> bool
    decreases calls.len(),
{
    calls.len() == 0 || {
        &&& call_admitted(heap, live, calls[0])
        &&& calls_admitted(
            after_call(heap, live, calls[0]).0,
            after_call(heap, live, calls[0]).1,
            calls.skip(1),
        )
    }
}

/// The heap and the blocks in use after `calls`.
pub open spec fn after_calls(heap: HeapView, live: Set<Block>, calls: Seq<HeapCall>) -> (
    HeapView,
    Set<Block>,
)
    decreases calls.len(),
{
    if calls.len() == 0 {
        (heap, live)
    } else {
        after_calls(
            after_call(heap, live, calls[0]).0,
            after_call(heap, live, calls[0]).1,
            calls.skip(1),
        )
    }
}

/// Calls that a caller may make keep a consistent heap consistent.
pub proof fn lemma_calls_keep_sound(heap: HeapView, live: Set<Block>, calls: Seq<HeapCall>)
    requires
        heap.sound(live),
        calls_admitted(heap, live, calls),
    ensures
        after_calls(heap, live, calls).0.sound(after_calls(heap, live, calls).1),
    decreases calls.len(),
{
    if calls.len() > 0 {
        match calls[0] {
            HeapCall::Allocate { frames, size, align } => {
                lemma_allocation_sound(heap, live, frames, size, align);
            },
            HeapCall::Free { ptr, size } => {
                lemma_dealloc_sound(heap, live, ptr, size);
            },
        }
        let next = after_call(heap, live, calls[0]);
        lemma_calls_keep_sound(next.0, next.1, calls.skip(1));
    }
}

/// No two blocks in use ever overlap. Whatever calls are made of a fresh heap
/// on whatever window, as long as a caller may make them, any two different
/// blocks that are in use afterwards share no byte, and each lies in the
/// window.
pub proof fn lemma_live_blocks_never_overlap(start: int, end: int, calls: Seq<HeapCall>)
    requires
        0 <= start <= end <= u64::MAX,
        calls_admitted(HeapView::empty(start, end), Set::<Block>::empty(), calls),
    ensures
        ({
            let live = after_calls(HeapView::empty(start, end), Set::<Block>::empty(), calls).1;
            &&& forall|block: Block, other: Block|
                #[trigger] live.contains(block) && #[trigger] live.contains(other) && block
                    != other ==> block.apart_from(other)
            &&& forall|block: Block| #[trigger] live.contains(block) ==> block.inside(start, end)
        }),
{
    let fresh = HeapView::empty(start, end);
    let none = Set::<Block>::empty();
    lemma_empty_heap_sound(start, end);
    lemma_calls_keep_sound(fresh, none, calls);
    lemma_calls_keep_window(fresh, none, calls);
}

/// Calls leave the window of the heap as it is, and the frontier inside it.
pub proof fn lemma_calls_keep_window(heap: HeapView, live: Set<Block>, calls: Seq<HeapCall>)
    requires
        heap.sound(live),
        calls_admitted(heap, live, calls),
    ensures
        after_calls(heap, live, calls).0.start == heap.start,
        after_calls(heap, live, calls).0.end == heap.end,
        after_calls(heap, live, calls).0.wf(),
    decreases calls.len(),
{
    if calls.len() > 0 {
        match calls[0] {
            HeapCall::Allocate { frames, size, align } => {
                lemma_allocation_sound(heap, live, frames, size, align);
                lemma_allocation_aligned(heap, frames, size, align);
            },
            HeapCall::Free { ptr, size } => {
                lemma_dealloc_sound(heap, live, ptr, size);
            },
        }
        let next = after_call(heap, live, calls[0]);
        lemma_calls_keep_window(next.0, next.1, calls.skip(1));
    }
}

/// A block that was just freed is the first to be handed out again: an
/// allocation of the same size class, with an alignment that the block has,
/// returns it without touching the frame allocator, and the heap is as it was
/// before the block was freed.
pub proof fn lemma_freed_block_is_reused(
    heap: HeapView,
    frames: Seq<Span>,
    ptr: u64,
    size: int,
    align: int,
)
    requires
        heap.wf(),
        0 < size <= MAX_REQUEST,
        align > 0,
        ptr as int % align == 0,
    ensures
        heap.give_chunk(bin_number(size as nat) as int, ptr).alloc_outcome(frames, size, align) == (
            heap,
            frames,
            Ok::<u64, AllocError>(ptr),
        ),
{
    let bin = bin_number(size as nat) as int;
    lemma_bin_number_in_range(size as nat);
    let freed = heap.give_chunk(bin, ptr);
    let list = freed.bins[bin];
    assert(list.last() == ptr);
    assert(newest_aligned(list, align) == list.len() - 1);
    assert(list.remove(list.len() - 1) =~= heap.bins[bin]);
    assert(freed.take_chunk(bin, list.len() - 1).bins =~= heap.bins);
}

} // verus!
