//! The page-mapping interface that the heap allocator drives when it grows,
//! and the record of what it asked of it.
use vstd::prelude::*;
use crate::memory::frame_allocator::Frame;

verus! {

/// Protection of a mapping.
#[derive(Debug, Clone, Copy, PartialEq, Eq, Structural)]
pub struct MapFlags {
    /// The page can be accessed at all.
    pub present: bool,
    /// The page can be written.
    pub writable: bool,
}

impl MapFlags {
    /// The flags of heap memory: present and writable.
    pub fn present_writable() -> (flags: MapFlags)
        ensures
            flags == (MapFlags { present: true, writable: true }),
    {
        MapFlags { present: true, writable: true }
    }
}

/// The mapper refused a mapping, for instance because the page already has a
/// translation.
#[derive(Debug, Clone, Copy, PartialEq, Eq, Structural)]
pub struct MapFailure {}

/// Whoever owns the page tables. `map` makes the page of virtual memory that
/// starts at `page` refer to `frame`; when it returns `Ok`, the translation is
/// in force for the accesses that follow. Nothing is assumed of an
/// implementation.
pub trait PageMapper {
    fn map(&mut self, page: u64, frame: Frame, flags: MapFlags) -> Result<(), MapFailure>;
}

/// A request that was made of a mapper, and whether the mapper accepted it.
pub struct MapRequest {
    pub page: u64,
    pub frame: Frame,
    pub flags: MapFlags,
    pub accepted: bool,
}

/// A mapper together with the record of every request made of it. The heap
/// allocator reaches the mapper through this record only, so that its
/// contracts can say what it asked of the mapper.
pub struct LoggedMapper<M: PageMapper> {
    mapper: M,
    log: Ghost<Seq<MapRequest>>,
}

impl<M: PageMapper> LoggedMapper<M> {
    /// Every request made of the mapper so far, the oldest first.
    pub closed spec fn requests(&self) -> Seq<MapRequest> {
        self.log@
    }

    /// The mapper behind the record.
    pub closed spec fn inner(&self) -> M {
        self.mapper
    }

    /// Puts `mapper` behind a record without requests.
    pub fn new(mapper: M) -> (logged: LoggedMapper<M>)
        ensures
            logged.requests() == Seq::<MapRequest>::empty(),
            logged.inner() == mapper,
    {
        LoggedMapper { mapper, log: Ghost(Seq::empty()) }
    }

    /// Hands the request to the mapper and records it with the answer.
    pub fn map(&mut self, page: u64, frame: Frame, flags: MapFlags) -> (answer: Result<
        (),
        MapFailure,
    >)
        ensures
            final(self).requests() == old(self).requests().push(
                MapRequest { page, frame, flags, accepted: answer is Ok },
            ),
    {
        let answer = self.mapper.map(page, frame, flags);
        let accepted = answer.is_ok();
        self.log = Ghost(self.log@.push(MapRequest { page, frame, flags, accepted }));
        answer
    }

    /// The mapper behind the record.
    pub fn mapper(&self) -> (mapper: &M)
        ensures
            *mapper == self.inner(),
    {
        &self.mapper
    }

    /// Gives the mapper back.
    pub fn into_mapper(self) -> (mapper: M)
        ensures
            mapper == self.inner(),
    {
        self.mapper
    }
}

} // verus!
