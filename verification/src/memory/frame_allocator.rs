//! The physical frame allocator: hands out 4 KiB frames from the memory
//! segments registered with it, draining them in registration order and
//! never taking a frame back.
use vstd::prelude::*;
use crate::memory::{align_up_spec, checked_align_up, lemma_align_up, PAGE_SIZE};

verus! {

/// What the frame allocator reports when it cannot do what was asked.
#[derive(Debug, Clone, Copy, PartialEq, Eq, Structural)]
pub enum FrameError {
    /// The segment is empty or runs past the end of the address space.
    InvalidSegment,
    /// No registered segment can supply another frame.
    FrameExhausted,
}

/// A range of addresses as the contracts see it.
pub struct Span {
    pub base: int,
    pub length: int,
}

impl Span {
    /// The first address after the span.
    pub open spec fn end(self) -> int {
        self.base + self.length
    }

    /// A span is valid when it is not empty and lies in the address space.
    pub open spec fn valid(self) -> bool {
        0 <= self.base && 0 < self.length && self.end() <= u64::MAX
    }

    /// Start of the lowest frame that lies in the span, if one does.
    pub open spec fn first_frame(self) -> int {
        align_up_spec(self.base, PAGE_SIZE as int)
    }

    /// Whether a whole, aligned frame lies in the span.
    pub open spec fn has_frame(self) -> bool {
        self.first_frame() + PAGE_SIZE <= self.end()
    }

    /// What is left of the span above its lowest frame.
    pub open spec fn after_frame(self) -> Span {
        Span {
            base: self.first_frame() + PAGE_SIZE,
            length: self.end() - (self.first_frame() + PAGE_SIZE),
        }
    }
}

/// Sum of the lengths of `segments`.
pub open spec fn total_length(segments: Seq<Span>) -> int
    decreases segments.len(),
{
    if segments.len() == 0 {
        0
    } else {
        total_length(segments.drop_last()) + segments.last().length
    }
}

/// Index of the first of `segments` that holds a frame; `segments.len()` if
/// none does.
pub open spec fn first_with_frame(segments: Seq<Span>) -> int
    decreases segments.len(),
{
    if segments.len() == 0 {
        0
    } else if segments[0].has_frame() {
        0
    } else {
        1 + first_with_frame(segments.skip(1))
    }
}

/// Start of the frame that the next allocation returns, if there is one: the
/// lowest frame of the first segment that holds any.
pub open spec fn next_frame(segments: Seq<Span>) -> Option<int> {
    let i = first_with_frame(segments);
    if i < segments.len() {
        Some(segments[i].first_frame())
    } else {
        None
    }
}

/// The segments that remain after one allocation. The segments before the
/// first one with a frame are dropped; that one loses its lowest frame and all
/// below it, and is dropped too when less than a frame is left of it. Where
/// no segment holds a frame, nothing remains.
pub open spec fn after_allocation(segments: Seq<Span>) -> Seq<Span> {
    let i = first_with_frame(segments);
    if i < segments.len() {
        let rest = segments[i].after_frame();
        if rest.length >= PAGE_SIZE {
            seq![rest] + segments.skip(i + 1)
        } else {
            segments.skip(i + 1)
        }
    } else {
        Seq::empty()
    }
}

/// The segments that remain after `count` allocations in a row.
pub open spec fn after_allocations(segments: Seq<Span>, count: nat) -> Seq<Span>
    decreases count,
{
    if count == 0 {
        segments
    } else {
        after_allocations(after_allocation(segments), (count - 1) as nat)
    }
}

/// Whether `count` allocations in a row all find a frame.
pub open spec fn can_allocate(segments: Seq<Span>, count: nat) -> bool
    decreases count,
{
    count == 0 || (next_frame(segments) is Some && can_allocate(
        after_allocation(segments),
        (count - 1) as nat,
    ))
}

/// How many of `limit` allocations in a row find a frame: as many as come
/// before the first that finds none.
pub open spec fn allocatable(segments: Seq<Span>, limit: nat) -> nat
    decreases limit,
{
    if limit == 0 || next_frame(segments) is None {
        0
    } else {
        1 + allocatable(after_allocation(segments), (limit - 1) as nat)
    }
}

/// Whether every one of `segments` is valid.
pub open spec fn all_valid(segments: Seq<Span>) -> bool {
    forall|i: int| 0 <= i < segments.len() ==> (#[trigger] segments[i]).valid()
}

/// Whether no two of `segments` share a byte.
pub open spec fn all_apart(segments: Seq<Span>) -> bool {
    forall|i: int, j: int|
        0 <= i < j < segments.len() ==> (#[trigger] segments[i]).end() <= (
        #[trigger] segments[j]).base || segments[j].end() <= segments[i].base
}

/// Whether `address` lies in one of `segments`.
pub open spec fn holds_address(segments: Seq<Span>, address: int) -> bool {
    exists|i: int|
        0 <= i < segments.len() && (#[trigger] segments[i]).base <= address < segments[i].end()
}

/// Start of the frame that the allocation after `count` allocations returns,
/// if there is one.
pub open spec fn frame_after(segments: Seq<Span>, count: nat) -> Option<int> {
    next_frame(after_allocations(segments, count))
}

/// A contiguous range of physical memory.
#[derive(Debug, Clone, Copy, PartialEq, Eq, Structural)]
pub struct MemorySegment {
    base: u64,
    length: u64,
}

impl View for MemorySegment {
    type V = Span;

    closed spec fn view(&self) -> Span {
        Span { base: self.base as int, length: self.length as int }
    }
}

impl MemorySegment {
    /// Describes the `length` bytes from `base` on. The segment is refused
    /// when it is empty or when `base + length` exceeds the address space.
    pub fn new(base: u64, length: u64) -> (segment: Result<MemorySegment, FrameError>)
        ensures
            match segment {
                Ok(s) => s@ == (Span { base: base as int, length: length as int }) && s@.valid(),
                Err(e) => e == FrameError::InvalidSegment && !(Span {
                    base: base as int,
                    length: length as int,
                }).valid(),
            },
    {
        if length == 0 {
            return Err(FrameError::InvalidSegment);
        }
        match base.checked_add(length) {
            Some(_) => Ok(MemorySegment { base, length }),
            None => Err(FrameError::InvalidSegment),
        }
    }

    /// First address of the segment.
    pub fn base(&self) -> (base: u64)
        ensures
            base == self@.base,
    {
        self.base
    }

    /// Number of bytes in the segment.
    pub fn length(&self) -> (length: u64)
        ensures
            length == self@.length,
    {
        self.length
    }
}

/// A frame of physical memory: `PAGE_SIZE` bytes at a multiple of `PAGE_SIZE`.
#[derive(Debug, Clone, Copy, PartialEq, Eq, Structural)]
pub struct Frame {
    start: u64,
}

impl Frame {
    /// Physical address of the first byte of the frame.
    pub closed spec fn start(self) -> int {
        self.start as int
    }

    /// Physical address of the first byte of the frame.
    pub fn start_address(&self) -> (address: u64)
        ensures
            address == self.start(),
    {
        self.start
    }
}

/// The frame allocator: the segments that still hold memory, in the order in
/// which they were registered, and the number of bytes left in them.
pub struct PhysicalFrameAllocator {
    segments: Vec<MemorySegment>,
    free: u64,
}

impl View for PhysicalFrameAllocator {
    type V = Seq<Span>;

    closed spec fn view(&self) -> Seq<Span> {
        self.segments@.map_values(|s: MemorySegment| s@)
    }
}

impl PhysicalFrameAllocator {
    /// The byte counter of the allocator.
    pub closed spec fn counted(&self) -> int {
        self.free as int
    }

    /// The allocator's invariant: every tracked segment is valid, and the
    /// byte counter is the sum of their lengths.
    pub open spec fn wf(&self) -> bool {
        &&& all_valid(self@)
        &&& self.counted() == total_length(self@)
    }

    /// An allocator without memory.
    pub fn new() -> (allocator: PhysicalFrameAllocator)
        ensures
            allocator.wf(),
            allocator@ == Seq::<Span>::empty(),
    {
        let allocator = PhysicalFrameAllocator { segments: Vec::new(), free: 0 };
        assert(allocator@ =~= Seq::<Span>::empty());
        allocator
    }

    /// Registers the `length` bytes from `base` on as free memory, behind the
    /// segments registered before. An empty range, or one that runs past the
    /// end of the address space, is refused and changes nothing.
    pub fn add_segment(&mut self, base: u64, length: u64) -> (result: Result<(), FrameError>)
        requires
            old(self).wf(),
            total_length(old(self)@) + length <= u64::MAX,
        ensures
            final(self).wf(),
            match result {
                Ok(_) => (Span { base: base as int, length: length as int }).valid()
                    && final(self)@ == old(self)@.push(
                    Span { base: base as int, length: length as int },
                ),
                Err(e) => e == FrameError::InvalidSegment && !(Span {
                    base: base as int,
                    length: length as int,
                }).valid() && final(self)@ == old(self)@,
            },
    {
        match MemorySegment::new(base, length) {
            Ok(segment) => {
                self.segments.push(segment);
                self.free = self.free + length;
                proof {
                    assert(self@ =~= old(self)@.push(segment@));
                    assert(self@.drop_last() =~= old(self)@);
                }
                Ok(())
            },
            Err(e) => Err(e),
        }
    }

    /// Takes the next frame: the lowest one of the first segment that holds a
    /// whole frame. Segments before that one hold none and are dropped; the
    /// segment itself is dropped when less than a frame is left of it.
    pub fn allocate_frame(&mut self) -> (result: Result<Frame, FrameError>)
        requires
            old(self).wf(),
        ensures
            final(self).wf(),
            final(self)@ == after_allocation(old(self)@),
            match result {
                Ok(frame) => {
                    &&& next_frame(old(self)@) == Some(frame.start())
                    &&& frame.start() % (PAGE_SIZE as int) == 0
                    &&& total_length(final(self)@) + PAGE_SIZE <= total_length(old(self)@)
                },
                Err(e) => {
                    &&& e == FrameError::FrameExhausted
                    &&& next_frame(old(self)@) is None
                    &&& total_length(final(self)@) == 0
                },
            },
    {
        while self.segments.len() > 0
            invariant
                self.wf(),
                next_frame(self@) == next_frame(old(self)@),
                after_allocation(self@) == after_allocation(old(self)@),
                total_length(self@) <= total_length(old(self)@),
            decreases self.segments.len(),
        {
            let head = self.segments[0];
            let ghost before = self@;
            proof {
                assert(before[0] == head@);
                assert(before[0].valid());
                lemma_align_up(head.base as int, PAGE_SIZE as int);
                lemma_total_length_head(before);
                lemma_total_length_nonnegative(before.skip(1));
            }
            let end: u64 = head.base + head.length;
            let fitting: Option<u64> = match checked_align_up(head.base, PAGE_SIZE) {
                Some(start) => if start <= end && end - start >= PAGE_SIZE {
                    Some(start)
                } else {
                    None
                },
                None => None,
            };
            match fitting {
                Some(start) => {
                    let rest: u64 = end - (start + PAGE_SIZE);
                    if rest >= PAGE_SIZE {
                        self.segments.set(0, MemorySegment { base: start + PAGE_SIZE, length: rest });
                        self.free = self.free - (head.length - rest);
                        proof {
                            let after = before[0].after_frame();
                            assert(self@ =~= seq![after] + before.skip(1));
                            lemma_total_length_head(self@);
                            assert(self@.skip(1) =~= before.skip(1));
                        }
                    } else {
                        self.segments.remove(0);
                        self.free = self.free - head.length;
                        proof {
                            assert(self@ =~= before.skip(1));
                        }
                    }
                    return Ok(Frame { start });
                },
                None => {
                    self.segments.remove(0);
                    self.free = self.free - head.length;
                    proof {
                        assert(self@ =~= before.skip(1));
                        lemma_drop_frameless_head(before);
                    }
                },
            }
        }
        proof {
            assert(self@ =~= Seq::<Span>::empty());
        }
        Err(FrameError::FrameExhausted)
    }

    /// Number of bytes left in the tracked segments.
    pub fn free_space(&self) -> (bytes: u64)
        requires
            self.wf(),
        ensures
            bytes == total_length(self@),
    {
        self.free
    }
}

/// One more allocation after `count` is one allocation applied to what
/// `count` allocations leave, and succeeds when they did and a frame is left.
pub proof fn lemma_one_more_allocation(segments: Seq<Span>, count: nat)
    ensures
        after_allocations(segments, count + 1) == after_allocation(
            after_allocations(segments, count),
        ),
        can_allocate(segments, count + 1) <==> can_allocate(segments, count) && next_frame(
            after_allocations(segments, count),
        ) is Some,
    decreases count,
{
    let rest = after_allocation(segments);
    assert(after_allocations(segments, count + 1) == after_allocations(rest, count));
    assert(can_allocate(segments, count + 1) == (next_frame(segments) is Some && can_allocate(
        rest,
        count,
    )));
    if count > 0 {
        lemma_one_more_allocation(rest, (count - 1) as nat);
        assert(after_allocations(segments, count) == after_allocations(rest, (count - 1) as nat));
    } else {
        assert(after_allocations(rest, 0) == rest);
        assert(can_allocate(rest, 0));
    }
}

/// Where `done` allocations found a frame and either they are all that were
/// wanted or the next one finds none, `done` is how many of `limit` find one.
pub proof fn lemma_allocatable(segments: Seq<Span>, done: nat, limit: nat)
    requires
        done <= limit,
        can_allocate(segments, done),
        done == limit || next_frame(after_allocations(segments, done)) is None,
    ensures
        allocatable(segments, limit) == done,
    decreases done,
{
    if done == 0 {
        assert(after_allocations(segments, 0) == segments);
    } else {
        let rest = after_allocation(segments);
        assert(after_allocations(segments, done) == after_allocations(rest, (done - 1) as nat));
        lemma_allocatable(rest, (done - 1) as nat, (limit - 1) as nat);
    }
}

/// Where `count` allocations all find a frame, so do fewer.
pub proof fn lemma_can_allocate_fewer(segments: Seq<Span>, count: nat, fewer: nat)
    requires
        fewer <= count,
        can_allocate(segments, count),
    ensures
        can_allocate(segments, fewer),
    decreases count,
{
    if fewer > 0 {
        lemma_can_allocate_fewer(
            after_allocation(segments),
            (count - 1) as nat,
            (fewer - 1) as nat,
        );
    }
}

/// Once an allocation has found no frame, no segment is left, whatever the
/// number of allocations that follow.
pub proof fn lemma_exhausted_stays_empty(segments: Seq<Span>, count: nat)
    requires
        next_frame(segments) is None,
    ensures
        count > 0 ==> after_allocations(segments, count) == Seq::<Span>::empty(),
    decreases count,
{
    if count > 0 {
        let rest = after_allocation(segments);
        assert(rest == Seq::<Span>::empty());
        assert(after_allocations(segments, count) == after_allocations(rest, (count - 1) as nat));
        if count > 1 {
            assert(first_with_frame(rest) == 0);
            lemma_exhausted_stays_empty(rest, (count - 1) as nat);
        } else {
            assert(after_allocations(rest, 0) == rest);
        }
    }
}

/// Allocations in a row add up: `first + then` of them leave what `then`
/// leave of what `first` left.
pub proof fn lemma_allocations_add_up(segments: Seq<Span>, first: nat, then: nat)
    ensures
        after_allocations(segments, first + then) == after_allocations(
            after_allocations(segments, first),
            then,
        ),
    decreases first,
{
    if first > 0 {
        lemma_allocations_add_up(after_allocation(segments), (first - 1) as nat, then);
    }
}

/// Where the allocation after `done` allocations finds no frame, `count`
/// allocations do not all find one, for any `count` above `done`, and they
/// leave nothing.
pub proof fn lemma_rest_fails(segments: Seq<Span>, done: nat, count: nat)
    requires
        done < count,
        next_frame(after_allocations(segments, done)) is None,
    ensures
        !can_allocate(segments, count),
        after_allocations(segments, count) == Seq::<Span>::empty(),
{
    lemma_allocations_add_up(segments, done, (count - done) as nat);
    lemma_exhausted_stays_empty(after_allocations(segments, done), (count - done) as nat);
    lemma_one_more_allocation(segments, done);
    if can_allocate(segments, count) {
        lemma_can_allocate_fewer(segments, count, done + 1);
    }
}

/// A frame that is handed out lies in a registered segment, and on a frame
/// boundary.
pub proof fn lemma_frame_comes_from_a_segment(segments: Seq<Span>)
    requires
        all_valid(segments),
        next_frame(segments) is Some,
    ensures
        next_frame(segments)->0 % (PAGE_SIZE as int) == 0,
        forall|address: int|
            next_frame(segments)->0 <= address < next_frame(segments)->0 + PAGE_SIZE
                ==> holds_address(segments, address),
{
    let i = first_with_frame(segments);
    lemma_first_with_frame(segments);
    lemma_align_up(segments[i].base, PAGE_SIZE as int);
    assert forall|address: int|
        next_frame(segments)->0 <= address < next_frame(segments)->0
            + PAGE_SIZE implies holds_address(segments, address) by {
        assert(segments[i].base <= address < segments[i].end());
    }
}

/// What an allocation leaves is part of what there was, is valid, and no
/// longer holds the frame that was handed out. Segments that were apart stay
/// apart.
pub proof fn lemma_frame_is_gone(segments: Seq<Span>)
    requires
        all_valid(segments),
        all_apart(segments),
    ensures
        all_valid(after_allocation(segments)),
        all_apart(after_allocation(segments)),
        forall|address: int|
            holds_address(after_allocation(segments), address) ==> holds_address(
                segments,
                address,
            ),
        next_frame(segments) is Some ==> forall|address: int|
            holds_address(after_allocation(segments), address) ==> !(next_frame(segments)->0
                <= address < next_frame(segments)->0 + PAGE_SIZE),
{
    let i = first_with_frame(segments);
    let left = after_allocation(segments);
    lemma_first_with_frame(segments);
    if i < segments.len() {
        lemma_align_up(segments[i].base, PAGE_SIZE as int);
        let rest = segments[i].after_frame();
        let shift = if rest.length >= PAGE_SIZE {
            i
        } else {
            i + 1
        };
        // The segment at `k` of what is left is the rest of segment `i`, or
        // the segment at `k + shift` as it was.
        assert forall|k: int| 0 <= k < left.len() implies (#[trigger] left[k]) == if k == 0
            && rest.length >= PAGE_SIZE {
            rest
        } else {
            segments[k + shift]
        } by {}
        assert forall|k: int| 0 <= k < left.len() implies (#[trigger] left[k]).valid() by {
            assert(segments[k + shift].valid());
        }
        assert forall|k: int, l: int| 0 <= k < l < left.len() implies (#[trigger] left[k]).end() <= (
        #[trigger] left[l]).base || left[l].end() <= left[k].base by {
            assert(segments[k + shift].end() <= segments[l + shift].base || segments[l
                + shift].end() <= segments[k + shift].base);
        }
        assert forall|address: int| holds_address(left, address) implies holds_address(
            segments,
            address,
        ) && !(next_frame(segments)->0 <= address < next_frame(segments)->0 + PAGE_SIZE) by {
            let k = choose|k: int|
                0 <= k < left.len() && (#[trigger] left[k]).base <= address < left[k].end();
            assert(segments[k + shift].base <= address < segments[k + shift].end());
            if !(k == 0 && rest.length >= PAGE_SIZE) {
                assert(segments[i].end() <= segments[k + shift].base || segments[k
                    + shift].end() <= segments[i].base);
            }
        }
    } else {
        assert(left =~= Seq::<Span>::empty());
    }
}

/// No frame is handed out twice: where the segments are apart, two frames
/// that the allocator hands out, at whatever distance in time, share no byte.
pub proof fn lemma_frames_never_overlap(segments: Seq<Span>, earlier: nat, later: nat)
    requires
        all_valid(segments),
        all_apart(segments),
        earlier < later,
        frame_after(segments, earlier) is Some,
        frame_after(segments, later) is Some,
    ensures
        frame_after(segments, earlier)->0 + PAGE_SIZE <= frame_after(segments, later)->0
            || frame_after(segments, later)->0 + PAGE_SIZE <= frame_after(segments, earlier)->0,
    decreases earlier,
{
    let rest = after_allocation(segments);
    lemma_frame_is_gone(segments);
    assert(after_allocations(segments, later) == after_allocations(rest, (later - 1) as nat));
    if earlier == 0 {
        let first = next_frame(segments)->0;
        let second = frame_after(segments, later)->0;
        assert(after_allocations(segments, 0) == segments);
        lemma_stays_within(rest, (later - 1) as nat);
        lemma_frame_comes_from_a_segment(after_allocations(rest, (later - 1) as nat));
        // Both ends of the later frame lie in what the first allocation left.
        assert(holds_address(after_allocations(rest, (later - 1) as nat), second));
        assert(holds_address(after_allocations(rest, (later - 1) as nat), second + PAGE_SIZE - 1));
        assert(holds_address(rest, second));
        assert(holds_address(rest, second + PAGE_SIZE - 1));
        lemma_frame_comes_from_a_segment(segments);
    } else {
        assert(after_allocations(segments, earlier) == after_allocations(
            rest,
            (earlier - 1) as nat,
        ));
        lemma_frames_never_overlap(rest, (earlier - 1) as nat, (later - 1) as nat);
    }
}

/// What any number of allocations leave is part of what there was; it is
/// valid and apart if what there was is.
pub proof fn lemma_stays_within(segments: Seq<Span>, count: nat)
    requires
        all_valid(segments),
        all_apart(segments),
    ensures
        all_valid(after_allocations(segments, count)),
        all_apart(after_allocations(segments, count)),
        forall|address: int|
            holds_address(after_allocations(segments, count), address) ==> holds_address(
                segments,
                address,
            ),
    decreases count,
{
    if count > 0 {
        lemma_frame_is_gone(segments);
        lemma_stays_within(after_allocation(segments), (count - 1) as nat);
    }
}

/// `first_with_frame` returns an index up to the length; no segment before it
/// holds a frame, and the segment at it, if there is one, does.
pub proof fn lemma_first_with_frame(segments: Seq<Span>)
    ensures
        0 <= first_with_frame(segments) <= segments.len(),
        forall|i: int| 0 <= i < first_with_frame(segments) ==> !(#[trigger] segments[i]).has_frame(),
        first_with_frame(segments) < segments.len() ==> segments[first_with_frame(
            segments,
        )].has_frame(),
    decreases segments.len(),
{
    if segments.len() > 0 && !segments[0].has_frame() {
        let tail = segments.skip(1);
        lemma_first_with_frame(tail);
        assert forall|i: int| 0 <= i < first_with_frame(segments) implies !(
        #[trigger] segments[i]).has_frame() by {
            if i > 0 {
                assert(segments[i] == tail[i - 1]);
            }
        }
    }
}

/// A first segment without a frame does not matter to the next allocation.
pub proof fn lemma_drop_frameless_head(segments: Seq<Span>)
    requires
        segments.len() > 0,
        !segments[0].has_frame(),
    ensures
        next_frame(segments.skip(1)) == next_frame(segments),
        after_allocation(segments.skip(1)) == after_allocation(segments),
{
    let tail = segments.skip(1);
    let i = first_with_frame(tail);
    lemma_first_with_frame(tail);
    assert(first_with_frame(segments) == i + 1);
    if i < tail.len() {
        assert(tail[i] == segments[i + 1]);
        assert(tail.skip(i + 1) =~= segments.skip(i + 2));
    }
}

/// The sum of the lengths of `segments` is the sum over its first `at`
/// segments plus the sum over the others.
pub proof fn lemma_total_length_split(segments: Seq<Span>, at: int)
    requires
        0 <= at <= segments.len(),
    ensures
        total_length(segments) == total_length(segments.take(at)) + total_length(
            segments.skip(at),
        ),
    decreases segments.len(),
{
    if at == segments.len() {
        assert(segments.take(at) =~= segments);
        assert(segments.skip(at) =~= Seq::<Span>::empty());
    } else {
        lemma_total_length_split(segments.drop_last(), at);
        assert(segments.drop_last().take(at) =~= segments.take(at));
        assert(segments.drop_last().skip(at) =~= segments.skip(at).drop_last());
    }
}

/// The sum of the lengths of `segments` is the length of the first plus the
/// sum over the others.
pub proof fn lemma_total_length_head(segments: Seq<Span>)
    requires
        segments.len() > 0,
    ensures
        total_length(segments) == segments[0].length + total_length(segments.skip(1)),
{
    lemma_total_length_split(segments, 1);
    let head = segments.take(1);
    assert(head.drop_last() =~= Seq::<Span>::empty());
    assert(total_length(head.drop_last()) == 0);
    assert(head.last() == segments[0]);
}

/// Valid segments have a sum of lengths that is not negative.
pub proof fn lemma_total_length_nonnegative(segments: Seq<Span>)
    requires
        all_valid(segments),
    ensures
        total_length(segments) >= 0,
    decreases segments.len(),
{
    if segments.len() > 0 {
        lemma_total_length_nonnegative(segments.drop_last());
    }
}

} // verus!
