//! The boot-time frame allocator: a linear scan over the boot-reported
//! memory regions, skipping the kernel image and the boot-information
//! blob, together with the tiny three-frame pool used by the temporary
//! page.
//!
//! Frames given back are kept on a free list and handed out again before
//! the scan resumes; nothing else ever reclaims physical memory.

use vstd::prelude::*;

verus! {

use vstd::arithmetic::div_mod::lemma_div_is_ordered;
use crate::frame::Frame;
use crate::frame::FrameAllocator;
use crate::frame::MemoryArea;
use crate::frame::area_last_frame;
use crate::frame::area_wf;
use crate::frame::MAX_PHYSICAL_ADDRESS;
use crate::frame::PAGE_SIZE;

/// The first frame of a region.
pub open spec fn area_start_frame(a: MemoryArea) -> int {
    a.spec_start() as int / (PAGE_SIZE as int)
}

/// Whether region `i` still holds frames at or past `nf`.
pub open spec fn is_candidate(areas: Seq<MemoryArea>, nf: int, i: int) -> bool {
    0 <= i < areas.len() && area_last_frame(areas[i]) >= nf
}

/// Whether `i` is the region the cursor selects for `nf`: a candidate with
/// the smallest start address, the earliest such region on ties.
pub open spec fn is_chosen_area(areas: Seq<MemoryArea>, nf: int, i: int) -> bool {
    &&& is_candidate(areas, nf, i)
    &&& forall|j: int| is_candidate(areas, nf, j) ==> areas[i].spec_start() <= areas[j].spec_start()
    &&& forall|j: int| 0 <= j < i && is_candidate(areas, nf, j)
            ==> areas[j].spec_start() > areas[i].spec_start()
}

/// The cursor position after selecting region `i` for `nf`.
pub open spec fn next_free_after_choose(areas: Seq<MemoryArea>, nf: int, i: int) -> int {
    if nf < area_start_frame(areas[i]) {
        area_start_frame(areas[i])
    } else {
        nf
    }
}

/// An upper bound (exclusive) on the frames of all regions.
pub open spec fn frame_bound(areas: Seq<MemoryArea>) -> int
    decreases areas.len(),
{
    if areas.len() == 0 {
        0
    } else if area_last_frame(areas.last()) + 1 >= frame_bound(areas.drop_last()) {
        area_last_frame(areas.last()) + 1
    } else {
        frame_bound(areas.drop_last())
    }
}

proof fn lemma_frame_bound(areas: Seq<MemoryArea>, i: int)
    requires
        0 <= i < areas.len(),
    ensures
        area_last_frame(areas[i]) < frame_bound(areas),
    decreases areas.len(),
{
    if i + 1 == areas.len() {
    } else {
        lemma_frame_bound(areas.drop_last(), i);
    }
}

/// Whether some region holds frame `g`.
pub open spec fn frame_in_areas(areas: Seq<MemoryArea>, g: int) -> bool {
    exists|i: int|
        0 <= i < areas.len() && area_start_frame(#[trigger] areas[i]) <= g <= area_last_frame(
            areas[i],
        )
}

/// Scans the usable memory regions front to back, one frame at a time.
/// The `kernel` and `multiboot` fields hold the two reserved ranges as
/// half-open frame intervals: the first frame of the image, and the first
/// frame past it.
pub struct AreaFrameAllocator {
    pub next_free_frame: Frame,
    pub current_area: Option<usize>,
    pub areas: Vec<MemoryArea>,
    pub kernel_start: Frame,
    pub kernel_end: Frame,
    pub multiboot_start: Frame,
    pub multiboot_end: Frame,
    pub free_frames: Vec<Frame>,
}

impl AreaFrameAllocator {
    /// Whether frame `g` holds bytes of the kernel image or of the
    /// boot-information blob.
    pub open spec fn frame_reserved(self, g: int) -> bool {
        (self.kernel_start@ <= g < self.kernel_end@) || (self.multiboot_start@ <= g
            < self.multiboot_end@)
    }

    /// Whether the scan may hand frame `g` out: inside a reported region
    /// and free of kernel and boot-information bytes.
    pub open spec fn allocatable(self, g: int) -> bool {
        frame_in_areas(self.areas@, g) && !self.frame_reserved(g)
    }

    /// A frame that may sit on the free list: in range and outside the two
    /// reserved ranges.
    pub open spec fn free_frame_ok(self, f: Frame) -> bool {
        &&& f@ * PAGE_SIZE < MAX_PHYSICAL_ADDRESS
        &&& !self.frame_reserved(f@ as int)
    }

    pub open spec fn wf(self) -> bool {
        &&& forall|k: int| 0 <= k < self.areas@.len() ==> area_wf(#[trigger] self.areas@[k])
        &&& match self.current_area {
            Some(i) => i < self.areas@.len() && self.next_free_frame@ >= area_start_frame(
                self.areas@[i as int],
            ),
            None => forall|j: int|
                !is_candidate(self.areas@, self.next_free_frame@ as int, j),
        }
        &&& forall|k: int|
            0 <= k < self.free_frames@.len() ==> self.free_frame_ok(#[trigger] self.free_frames@[k])
    }

    /// The allocator's fixed configuration: everything but the cursor and
    /// the free list.
    pub open spec fn same_config(self, other: Self) -> bool {
        &&& self.areas@ == other.areas@
        &&& self.kernel_start == other.kernel_start
        &&& self.kernel_end == other.kernel_end
        &&& self.multiboot_start == other.multiboot_start
        &&& self.multiboot_end == other.multiboot_end
    }

    /// Build the allocator over the given regions; the kernel image and
    /// the boot-information blob occupy the half-open address ranges
    /// `[kernel_start, kernel_end)` and `[multiboot_start, multiboot_end)`.
    /// The region cursor starts on the chosen first region, exactly as
    /// `choose_next_area` selects it for frame 0.
    pub fn new(
        kernel_start: u64,
        kernel_end: u64,
        multiboot_start: u64,
        multiboot_end: u64,
        memory_areas: Vec<MemoryArea>,
    ) -> (r: AreaFrameAllocator)
        requires
            forall|k: int| 0 <= k < memory_areas@.len() ==> area_wf(#[trigger] memory_areas@[k]),
            kernel_end <= MAX_PHYSICAL_ADDRESS,
            multiboot_end <= MAX_PHYSICAL_ADDRESS,
        ensures
            r.wf(),
            r.areas@ == memory_areas@,
            r.kernel_start@ == kernel_start / PAGE_SIZE,
            r.kernel_end@ as int == (kernel_end + PAGE_SIZE - 1) as int / PAGE_SIZE as int,
            r.multiboot_start@ == multiboot_start / PAGE_SIZE,
            r.multiboot_end@ as int == (multiboot_end + PAGE_SIZE - 1) as int / PAGE_SIZE as int,
            r.free_frames@.len() == 0,
            match r.current_area {
                Some(i) => is_chosen_area(memory_areas@, 0, i as int) && r.next_free_frame@
                    == next_free_after_choose(memory_areas@, 0, i as int),
                None => (forall|j: int| !is_candidate(memory_areas@, 0, j))
                    && r.next_free_frame@ == 0,
            },
    {
        let mut allocator = AreaFrameAllocator {
            next_free_frame: Frame::containing_address(0),
            current_area: None,
            areas: memory_areas,
            kernel_start: Frame::containing_address(kernel_start),
            kernel_end: Frame::containing_address(kernel_end + (PAGE_SIZE - 1)),
            multiboot_start: Frame::containing_address(multiboot_start),
            multiboot_end: Frame::containing_address(multiboot_end + (PAGE_SIZE - 1)),
            free_frames: Vec::new(),
        };
        allocator.choose_next_area();
        allocator
    }

    /// Re-select the region the cursor scans: the candidate region with
    /// the smallest start address, and move the cursor up to its first
    /// frame.  With no intervening allocation this is idempotent (see
    /// `lemma_choose_next_area_idempotent`).
    pub fn choose_next_area(&mut self)
        requires
            forall|k: int|
                0 <= k < old(self).areas@.len() ==> area_wf(#[trigger] old(self).areas@[k]),
        ensures
            final(self).same_config(*old(self)),
            final(self).free_frames@ == old(self).free_frames@,
            match final(self).current_area {
                Some(i) => is_chosen_area(old(self).areas@, old(self).next_free_frame@ as int, i as int)
                    && final(self).next_free_frame@
                        == next_free_after_choose(old(self).areas@, old(self).next_free_frame@ as int, i as int),
                None => (forall|j: int|
                    !is_candidate(old(self).areas@, old(self).next_free_frame@ as int, j))
                    && final(self).next_free_frame == old(self).next_free_frame,
            },
    {
        let ghost areas = self.areas@;
        let ghost nf = self.next_free_frame@ as int;
        let mut best: Option<usize> = None;
        let n = self.areas.len();
        let mut j: usize = 0;
        while j < n
            invariant
                j <= n,
                n == self.areas@.len(),
                *self == *old(self),
                areas == self.areas@,
                nf == self.next_free_frame@ as int,
                forall|k: int| 0 <= k < areas.len() ==> area_wf(#[trigger] areas[k]),
                match best {
                    Some(b) => b < j && is_candidate(areas, nf, b as int)
                        && (forall|k: int|
                            0 <= k < j && is_candidate(areas, nf, k)
                                ==> areas[b as int].spec_start() <= areas[k].spec_start())
                        && (forall|k: int|
                            0 <= k < b && is_candidate(areas, nf, k)
                                ==> areas[k].spec_start() > areas[b as int].spec_start()),
                    None => forall|k: int| 0 <= k < j ==> !is_candidate(areas, nf, k),
                },
            decreases n - j,
        {
            let a = self.areas[j];
            let last = (a.start_address() + a.size() - 1) / PAGE_SIZE;
            if last >= self.next_free_frame.number() {
                best = match best {
                    None => Some(j),
                    Some(b) => {
                        if self.areas[b].start_address() <= a.start_address() {
                            Some(b)
                        } else {
                            Some(j)
                        }
                    },
                };
            }
            j = j + 1;
        }
        self.current_area = best;
        if let Some(b) = best {
            let area = self.areas[b];
            let start_frame = Frame::containing_address(area.start_address());
            if self.next_free_frame.number() < start_frame.number() {
                self.next_free_frame = start_frame;
            }
        }
    }
}

/// Law: re-selecting the region without an intervening allocation keeps
/// the cursor where it is.  If `i` is the region chosen for cursor `nf`,
/// then `i` is chosen again for the moved cursor, and the cursor does not
/// move a second time.
pub proof fn lemma_choose_next_area_idempotent(areas: Seq<MemoryArea>, nf: int, i: int)
    requires
        forall|k: int| 0 <= k < areas.len() ==> area_wf(#[trigger] areas[k]),
        is_chosen_area(areas, nf, i),
    ensures
        is_chosen_area(areas, next_free_after_choose(areas, nf, i), i),
        next_free_after_choose(areas, next_free_after_choose(areas, nf, i), i)
            == next_free_after_choose(areas, nf, i),
{
    let nf2 = next_free_after_choose(areas, nf, i);
    let a = areas[i];
    assert(a.spec_start() <= a.spec_start() + a.spec_size() - 1);
    lemma_div_is_ordered(a.spec_start() as int, a.spec_start() + a.spec_size() - 1, PAGE_SIZE as int);
    assert(area_start_frame(a) <= area_last_frame(a));
    assert(is_candidate(areas, nf2, i));
    assert forall|j: int| is_candidate(areas, nf2, j) implies is_candidate(areas, nf, j) by {
        assert(area_last_frame(areas[j]) >= nf2 >= nf);
    }
}

/// With no candidate region left at cursor `nf`, no region holds any
/// frame at or past `nf`.
proof fn lemma_no_candidate_no_frames(s: AreaFrameAllocator, pre: AreaFrameAllocator, nf: int)
    requires
        forall|j: int| !is_candidate(s.areas@, nf, j),
        s.areas@ == pre.areas@,
    ensures
        forall|g: int| g >= nf ==> !pre.allocatable(g),
{
    assert forall|g: int| g >= nf implies !pre.allocatable(g) by {
        if frame_in_areas(pre.areas@, g) {
            let i = choose|i: int|
                0 <= i < pre.areas@.len() && area_start_frame(#[trigger] pre.areas@[i]) <= g
                    <= area_last_frame(pre.areas@[i]);
            assert(is_candidate(s.areas@, nf, i));
        }
    }
}

/// When the cursor jumps from an exhausted region to the chosen one, no
/// region holds any of the frames jumped over.
proof fn lemma_skipped_to_chosen_area(
    before: AreaFrameAllocator,
    after: AreaFrameAllocator,
    orig: AreaFrameAllocator,
)
    requires
        before.areas@ == orig.areas@,
        after.areas@ == before.areas@,
        match after.current_area {
            Some(i) => is_chosen_area(before.areas@, before.next_free_frame@ as int, i as int)
                && after.next_free_frame@ == next_free_after_choose(
                before.areas@,
                before.next_free_frame@ as int,
                i as int,
            ),
            None => after.next_free_frame == before.next_free_frame,
        },
    ensures
        after.next_free_frame@ >= before.next_free_frame@,
        forall|g: int|
            before.next_free_frame@ <= g < after.next_free_frame@ ==> !orig.allocatable(g),
{
    match after.current_area {
        Some(i) => {
            let areas = before.areas@;
            let nf = before.next_free_frame@ as int;
            let ii = i as int;
            assert forall|g: int|
                nf <= g < after.next_free_frame@ implies !orig.allocatable(g) by {
                if frame_in_areas(areas, g) {
                    let j = choose|j: int|
                        0 <= j < areas.len() && area_start_frame(#[trigger] areas[j]) <= g
                            <= area_last_frame(areas[j]);
                    assert(is_candidate(areas, nf, j));
                    assert(areas[ii].spec_start() <= areas[j].spec_start());
                    lemma_div_is_ordered(
                        areas[ii].spec_start() as int,
                        areas[j].spec_start() as int,
                        PAGE_SIZE as int,
                    );
                    assert(false);
                }
            }
        },
        None => {},
    }
}

impl FrameAllocator for AreaFrameAllocator {
    open spec fn alloc_pre(&self) -> bool {
        self.wf()
    }

    /// What an allocation promises.  With frames on the free list, the
    /// last one is popped and the scan state stands still.  Otherwise a
    /// returned frame is exactly the first allocatable frame at or past
    /// the cursor — inside a reported region, free of kernel and
    /// boot-information bytes — and the cursor moves just past it.
    /// `None` comes only at exhaustion: no frame at or past the cursor is
    /// allocatable at all.
    open spec fn alloc_post(&self, pre: Self, r: Option<Frame>) -> bool {
        &&& self.same_config(pre)
        &&& match r {
            Some(f) => {
                if pre.free_frames@.len() > 0 {
                    &&& f == pre.free_frames@.last()
                    &&& self.free_frames@ == pre.free_frames@.drop_last()
                    &&& self.next_free_frame == pre.next_free_frame
                    &&& self.current_area == pre.current_area
                } else {
                    &&& self.free_frames@.len() == 0
                    &&& pre.allocatable(f@ as int)
                    &&& pre.next_free_frame@ <= f@
                    &&& (forall|g: int|
                        pre.next_free_frame@ <= g < f@ ==> !pre.allocatable(g))
                    &&& self.next_free_frame@ == f@ + 1
                }
            },
            None => {
                &&& self.free_frames@ == pre.free_frames@
                &&& forall|g: int| g >= pre.next_free_frame@ ==> !pre.allocatable(g)
            },
        }
    }

    open spec fn dealloc_pre(&self, frame: Frame) -> bool {
        &&& self.wf()
        &&& self.free_frame_ok(frame)
    }

    open spec fn dealloc_post(&self, pre: Self, frame: Frame) -> bool {
        &&& self.same_config(pre)
        &&& self.next_free_frame == pre.next_free_frame
        &&& self.current_area == pre.current_area
        &&& self.free_frames@ == pre.free_frames@.push(frame)
    }

    /// Hand out the first allocatable frame at or past the cursor;
    /// frames given back earlier are reused first, most recent first.
    fn allocate_frame(&mut self) -> (r: Option<Frame>) {
        if let Some(f) = self.free_frames.pop() {
            return Some(f);
        }
        loop
            invariant
                self.wf(),
                self.same_config(*old(self)),
                self.free_frames@ == old(self).free_frames@,
                old(self).free_frames@.len() == 0,
                self.next_free_frame@ >= old(self).next_free_frame@,
                forall|g: int|
                    old(self).next_free_frame@ <= g < self.next_free_frame@ ==> !old(
                        self,
                    ).allocatable(g),
            decreases
                (if self.next_free_frame@ as int >= frame_bound(self.areas@) {
                    0int
                } else {
                    frame_bound(self.areas@) - self.next_free_frame@ as int
                }),
                (match self.current_area {
                    Some(i) => if area_last_frame(self.areas@[i as int]) < self.next_free_frame@ as int {
                        1int
                    } else {
                        0int
                    },
                    None => 0int,
                }),
        {
            match self.current_area {
                None => {
                    proof {
                        lemma_no_candidate_no_frames(
                            *self,
                            *old(self),
                            self.next_free_frame@ as int,
                        );
                    }
                    return None;
                },
                Some(ai) => {
                    let area = self.areas[ai];
                    let frame_num = self.next_free_frame.number();
                    let last = (area.start_address() + area.size() - 1) / PAGE_SIZE;
                    proof {
                        lemma_frame_bound(self.areas@, ai as int);
                    }
                    if frame_num > last {
                        let ghost before = *self;
                        self.choose_next_area();
                        proof {
                            lemma_skipped_to_chosen_area(before, *self, *old(self));
                        }
                    } else if frame_num >= self.kernel_start.number()
                        && frame_num < self.kernel_end.number() {
                        // Every frame up to the image's end holds kernel
                        // bytes: reserved.
                        self.next_free_frame = Frame { number: self.kernel_end.number() };
                        proof {
                            assert forall|g: int|
                                frame_num <= g < self.next_free_frame@ implies !old(
                                self,
                            ).allocatable(g) by {
                                assert(old(self).frame_reserved(g));
                            }
                        }
                    } else if frame_num >= self.multiboot_start.number()
                        && frame_num < self.multiboot_end.number() {
                        self.next_free_frame = Frame { number: self.multiboot_end.number() };
                        proof {
                            assert forall|g: int|
                                frame_num <= g < self.next_free_frame@ implies !old(
                                self,
                            ).allocatable(g) by {
                                assert(old(self).frame_reserved(g));
                            }
                        }
                    } else {
                        proof {
                            lemma_div_is_ordered(
                                self.areas@[ai as int].spec_start() + self.areas@[ai as int].spec_size() - 1,
                                MAX_PHYSICAL_ADDRESS - 1,
                                PAGE_SIZE as int,
                            );
                            assert(area_start_frame(old(self).areas@[ai as int])
                                <= frame_num as int <= area_last_frame(
                                old(self).areas@[ai as int],
                            ));
                            assert(frame_in_areas(old(self).areas@, frame_num as int));
                        }
                        let frame = Frame { number: frame_num };
                        self.next_free_frame = Frame { number: frame_num + 1 };
                        return Some(frame);
                    }
                },
            }
        }
    }

    /// Put a frame back on the free list.
    fn deallocate_frame(&mut self, frame: Frame) {
        self.free_frames.push(frame);
    }
}

/// The three-frame pool behind the temporary page.
pub struct TinyAllocator(pub Vec<Option<Frame>>);

impl TinyAllocator {
    pub open spec fn wf(self) -> bool {
        &&& self.0@.len() == 3
        &&& forall|k: int|
            0 <= k < 3 ==> match #[trigger] self.0@[k] {
                Some(f) => f@ * PAGE_SIZE < MAX_PHYSICAL_ADDRESS,
                None => true,
            }
    }

    /// Draw from the given allocator exactly three times and store the
    /// results in order as the pool; slots of an exhausted allocator stay
    /// empty.  The two existentials name the allocator's states after the
    /// first and second draw.
    pub fn new<A: FrameAllocator>(allocator: &mut A) -> (r: TinyAllocator)
        requires
            old(allocator).alloc_pre(),
        ensures
            r.wf(),
            final(allocator).alloc_pre(),
            r.0@.len() == 3,
            exists|m1: A, m2: A|
                m1.alloc_post(*old(allocator), #[trigger] r.0@[0]) && m2.alloc_post(
                    m1,
                    r.0@[1],
                ) && final(allocator).alloc_post(m2, r.0@[2]),
    {
        let f0 = allocator.allocate_frame();
        let ghost m1 = *allocator;
        let f1 = allocator.allocate_frame();
        let ghost m2 = *allocator;
        let f2 = allocator.allocate_frame();
        let mut frames: Vec<Option<Frame>> = Vec::new();
        frames.push(f0);
        frames.push(f1);
        frames.push(f2);
        proof {
            assert(m1.alloc_post(*old(allocator), frames@[0]) && m2.alloc_post(m1, frames@[1])
                && final(allocator).alloc_post(m2, frames@[2]));
        }
        TinyAllocator(frames)
    }
}

impl FrameAllocator for TinyAllocator {
    open spec fn alloc_pre(&self) -> bool {
        self.wf()
    }

    /// A returned frame comes out of the first filled slot; nothing else
    /// moves.  `None` comes only from an empty pool.
    open spec fn alloc_post(&self, pre: Self, r: Option<Frame>) -> bool {
        match r {
            Some(f) => exists|i: int|
                0 <= i < 3 && pre.0@[i] == Some(f) && (forall|k: int|
                    0 <= k < i ==> pre.0@[k] is None) && self.0@ == pre.0@.update(
                    i,
                    None::<Frame>,
                ),
            None => *self == pre && forall|k: int| 0 <= k < 3 ==> pre.0@[k] is None,
        }
    }

    /// The pool must have room: it holds at most three frames.
    open spec fn dealloc_pre(&self, frame: Frame) -> bool {
        &&& self.wf()
        &&& exists|i: int| 0 <= i < 3 && self.0@[i] is None
    }

    /// The frame lands in the first empty slot.
    open spec fn dealloc_post(&self, pre: Self, frame: Frame) -> bool {
        exists|i: int|
            0 <= i < 3 && pre.0@[i] is None && (forall|k: int|
                0 <= k < i ==> pre.0@[k] is Some) && self.0@ == pre.0@.update(i, Some(frame))
    }

    /// Take a frame out of the first filled slot.
    fn allocate_frame(&mut self) -> (r: Option<Frame>) {
        let mut i: usize = 0;
        while i < 3
            invariant
                i <= 3,
                self.wf(),
                *self == *old(self),
                forall|k: int| 0 <= k < i ==> old(self).0@[k] is None,
            decreases 3 - i,
        {
            if self.0[i].is_some() {
                let taken = self.0[i].take();
                proof {
                    let w = i as int;
                    assert(self.0@ == old(self).0@.update(w, None::<Frame>));
                    assert(exists|j: int|
                        0 <= j < 3 && old(self).0@[j] == Some(taken->0) && (forall|k: int|
                            0 <= k < j ==> old(self).0@[k] is None) && self.0@ == old(
                            self,
                        ).0@.update(j, None::<Frame>));
                }
                return taken;
            }
            i = i + 1;
        }
        None
    }

    /// Put a frame back into the first empty slot.
    fn deallocate_frame(&mut self, frame: Frame) {
        let ghost pre = *old(self);
        let mut i: usize = 0;
        while i < 3
            invariant
                i <= 3,
                pre == *old(self),
                *self == pre,
                pre.wf(),
                exists|k: int| i <= k < 3 && pre.0@[k] is None,
                forall|k: int| 0 <= k < i ==> pre.0@[k] is Some,
            decreases 3 - i,
        {
            if self.0[i].is_none() {
                self.0[i] = Some(frame);
                proof {
                    let w = i as int;
                    assert(pre.0@[w] is None && self.0@ == pre.0@.update(w, Some(frame)));
                    assert(exists|k: int|
                        0 <= k < 3 && pre.0@[k] is None && (forall|k2: int|
                            0 <= k2 < k ==> pre.0@[k2] is Some) && self.0@ == pre.0@.update(
                            k,
                            Some(frame),
                        ));
                }
                return;
            }
            i = i + 1;
        }
    }
}

} // verus!
