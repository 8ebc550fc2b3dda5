//! Physical frames and the boot-time frame allocator.
//!
//! A frame names one 4096-byte unit of physical memory by its index.  The
//! allocator scans the boot-reported memory regions in order of start
//! address, skipping the region occupied by the kernel image and the one
//! occupied by the boot-information blob.

use vstd::prelude::*;

verus! {

pub const PAGE_SIZE: u64 = 4096;

/// Physical addresses are limited to 52 bits, the architecture's widest
/// physical address; frame numbers therefore stay below `2^40`.
pub const MAX_PHYSICAL_ADDRESS: u64 = 0x0010_0000_0000_0000;

/// A 4096-byte unit of physical memory, named by its index.
#[derive(Debug, PartialEq, Eq, Structural, PartialOrd, Ord)]
pub struct Frame {
    pub number: u64,
}

impl View for Frame {
    type V = u64;

    open spec fn view(&self) -> u64 {
        self.number
    }
}

impl Frame {
    /// The frame with the given number.
    pub open spec fn from_number(n: u64) -> Frame {
        Frame { number: n }
    }

    /// The frame holding the given physical address.
    pub fn containing_address(address: u64) -> (r: Frame)
        ensures
            r@ == address / PAGE_SIZE,
    {
        Frame { number: address / PAGE_SIZE }
    }

    /// The frame's number.
    pub fn number(&self) -> (n: u64)
        ensures
            n == self@,
    {
        self.number
    }

    /// The physical address of the frame's first byte.
    pub fn start_address(&self) -> (a: u64)
        requires
            self@ * PAGE_SIZE <= u64::MAX,
        ensures
            a == self@ * PAGE_SIZE,
    {
        self.number * PAGE_SIZE
    }

    /// An explicit copy; frames are not freely copyable, so that handing
    /// one to a table entry reads as a deliberate act.
    pub fn clone(&self) -> (r: Frame)
        ensures
            r == *self,
    {
        Frame { number: self.number }
    }

    /// All frames from `start` to `end`, both included.
    pub fn range_inclusive(start: Frame, end: Frame) -> (r: FrameIter)
        ensures
            r.start == start,
            r.end == end,
    {
        FrameIter { start, end }
    }
}

/// Walks a frame range front to back.
pub struct FrameIter {
    pub start: Frame,
    pub end: Frame,
}

impl FrameIter {
    /// The next frame of the range, if one is left.
    pub fn next(&mut self) -> (r: Option<Frame>)
        requires
            old(self).start@ <= u64::MAX - 1,
        ensures
            final(self).end == old(self).end,
            old(self).start@ <= old(self).end@ ==> r == Some(old(self).start)
                && final(self).start@ == old(self).start@ + 1,
            old(self).start@ > old(self).end@ ==> r == None::<Frame>
                && final(self).start == old(self).start,
    {
        if self.start.number <= self.end.number {
            let frame = self.start.clone();
            self.start.number = self.start.number + 1;
            Some(frame)
        } else {
            None
        }
    }
}

/// One usable region of physical memory, as the bootloader reports it.
#[derive(Debug, Clone, Copy, PartialEq, Eq, Structural)]
pub struct MemoryArea {
    pub start: u64,
    pub size: u64,
}

impl MemoryArea {
    /// A region of `size` bytes starting at physical address `start`.
    pub fn new(start: u64, size: u64) -> (r: MemoryArea)
        ensures
            r.spec_start() == start,
            r.spec_size() == size,
    {
        MemoryArea { start, size }
    }

    pub open spec fn spec_start(self) -> u64 {
        self.start
    }

    pub open spec fn spec_size(self) -> u64 {
        self.size
    }

    pub fn start_address(&self) -> (a: u64)
        ensures
            a == self.spec_start(),
    {
        self.start
    }

    pub fn size(&self) -> (s: u64)
        ensures
            s == self.spec_size(),
    {
        self.size
    }
}

/// The last frame of a region (the region must not be empty).
pub open spec fn area_last_frame(a: MemoryArea) -> int {
    (a.spec_start() + a.spec_size() - 1) / (PAGE_SIZE as int)
}

/// A region the allocator can work with: non-empty and within the
/// physical address space.
pub open spec fn area_wf(a: MemoryArea) -> bool {
    &&& a.spec_size() >= 1
    &&& a.spec_start() + a.spec_size() <= MAX_PHYSICAL_ADDRESS
}

/// A source of physical frames.  Every frame handed out fits the address
/// bits of a page-table entry.
///
/// `took_frames(pre, post, k)` bounds an allocator's journey: `post` is
/// reachable from `pre` by at most `k` allocations (and nothing else).
pub open spec fn took_frames<A: FrameAllocator>(pre: A, post: A, k: int) -> bool
    decreases k,
{
    pre == post || (k > 0 && exists|mid: A, f: Option<Frame>|
        #[trigger] mid.alloc_post(pre, f) && took_frames(mid, post, k - 1))
}

/// A bound on allocations only loosens as it grows.
pub proof fn lemma_took_frames_widen<A: FrameAllocator>(pre: A, post: A, k: int, k2: int)
    requires
        took_frames(pre, post, k),
        k <= k2,
    ensures
        took_frames(pre, post, k2),
    decreases k2,
{
    if pre == post {
    } else {
        let (mid, f) = choose|mid: A, f: Option<Frame>|
            #[trigger] mid.alloc_post(pre, f) && took_frames(mid, post, k - 1);
        lemma_took_frames_widen::<A>(mid, post, k - 1, k2 - 1);
    }
}

/// Allocation bounds add up across two journeys.
pub proof fn lemma_took_frames_compose<A: FrameAllocator>(a: A, b: A, c: A, j: int, k: int)
    requires
        took_frames(a, b, j),
        took_frames(b, c, k),
        j >= 0,
        k >= 0,
    ensures
        took_frames(a, c, j + k),
    decreases j,
{
    if a == b {
        lemma_took_frames_widen::<A>(b, c, k, j + k);
    } else {
        let (mid, f) = choose|mid: A, f: Option<Frame>|
            #[trigger] mid.alloc_post(a, f) && took_frames(mid, b, j - 1);
        lemma_took_frames_compose::<A>(mid, b, c, j - 1, k);
    }
}

pub trait FrameAllocator: Sized {
    /// What must hold of the allocator before it is asked for a frame.
    spec fn alloc_pre(&self) -> bool;

    /// What an implementation promises of a completed allocation:
    /// `self` is the state after the call, `pre` the state before,
    /// `r` the result.
    spec fn alloc_post(&self, pre: Self, r: Option<Frame>) -> bool;

    /// What must hold of the allocator and the frame before the frame is
    /// given back.
    spec fn dealloc_pre(&self, frame: Frame) -> bool;

    /// What an implementation promises of a completed deallocation.
    spec fn dealloc_post(&self, pre: Self, frame: Frame) -> bool;

    /// Hand out one free frame, or report exhaustion with `None`.
    fn allocate_frame(&mut self) -> (r: Option<Frame>)
        requires
            old(self).alloc_pre(),
        ensures
            final(self).alloc_post(*old(self), r),
            final(self).alloc_pre(),
            (match r {
                Some(f) => f@ * PAGE_SIZE < MAX_PHYSICAL_ADDRESS,
                None => true,
            }),
    ;

    /// Take a frame back for later reuse.
    fn deallocate_frame(&mut self, frame: Frame)
        requires
            old(self).dealloc_pre(frame),
            frame@ * PAGE_SIZE < MAX_PHYSICAL_ADDRESS,
        ensures
            final(self).dealloc_post(*old(self), frame),
    ;
}

} // verus!
