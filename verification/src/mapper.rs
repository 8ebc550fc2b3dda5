//! The operations layer over the page-table model: translate a virtual
//! page or address to its physical counterpart, establish mappings, and
//! remove them.
//!
//! Frame exhaustion while growing the hierarchy is reported as an error
//! value; callers at boot treat it as fatal.  Intermediate tables emptied
//! by `unmap` are not reclaimed, an accepted gap of the design.

use vstd::prelude::*;

verus! {

use crate::flags::EntryFlags;
use crate::flags::spec_has_flags;
use crate::flags::lemma_flag_bits;
use crate::flags::lemma_or_present;
use crate::flags::lemma_present_writable;
use crate::flags::lemma_entry_frame_bound;
use crate::flags::PRESENT;
use crate::flags::WRITABLE;
use crate::flags::HUGE_PAGE;
use crate::flags::FLAG_MASK;
use crate::flags::MAX_ENTRY_FRAME;
use crate::frame::Frame;
use crate::frame::FrameAllocator;
use crate::frame::took_frames;
use crate::frame::lemma_took_frames_widen;
use crate::frame::lemma_took_frames_compose;
use crate::frame::PAGE_SIZE;
use crate::page::Page;
use crate::page::address_is_canonical;
use crate::page::LOW_HALF_END;
use crate::table::Table;
use crate::table::table_wf;
use crate::table::table_walk;
use crate::table::path_no_huge;
use crate::table::l1_entry;
use crate::table::page_index_at;
use crate::table::no_huge_entries;
use crate::table::same_path_indices;
use crate::table::lemma_zeroed_table;
use crate::table::lemma_page_index_bounds;

/// Why a mapping operation could not complete.
#[derive(Debug, Clone, Copy, PartialEq, Eq, Structural)]
pub enum MapError {
    /// The frame allocator ran out of frames.
    FrameExhausted,
    /// The page to map was already mapped; overwriting a live mapping is
    /// a caller error.
    AlreadyMapped,
}

/// The page that identity-maps the given frame.
pub open spec fn identity_page(frame: Frame) -> Page {
    Page { number: frame@ }
}

/// The operations layer over one level-4 table hierarchy.
pub struct Mapper {
    pub p4: Table,
}

impl Mapper {
    pub open spec fn wf(self) -> bool {
        table_wf(self.p4, 4)
    }

    /// A mapper over a fresh, empty hierarchy that translates nothing.
    pub fn new() -> (r: Mapper)
        ensures
            r.wf(),
            no_huge_entries(r.p4, 4),
            forall|page: Page| table_walk(r.p4, 4, page) == None::<u64>,
            forall|page: Page| path_no_huge(r.p4, 4, page),
    {
        let t = Table::new_zeroed();
        proof {
            lemma_zeroed_table(t, 4);
        }
        Mapper { p4: t }
    }

    /// The level-4 table.
    pub fn p4(&self) -> (r: &Table)
        ensures
            *r == self.p4,
    {
        &self.p4
    }

    /// The level-4 table, for editing.
    pub fn p4_mut(&mut self) -> (r: &mut Table)
        ensures
            *r == old(self).p4,
            final(self).p4 == *final(r),
    {
        &mut self.p4
    }

    /// The frame a page is mapped to, if any: the four-level walk, with
    /// huge entries at levels 3 and 2 honoured.
    pub fn translate_page(&self, page: Page) -> (r: Option<Frame>)
        requires
            self.wf(),
        ensures
            r is Some == table_walk(self.p4, 4, page) is Some,
            r is Some ==> r->0@ == table_walk(self.p4, 4, page)->0,
    {
        walk_table(&self.p4, 4, page)
    }

    /// The physical address behind a virtual address: page-align, walk,
    /// reapply the offset within the page.
    pub fn translate(&self, virtual_address: u64) -> (r: Option<u64>)
        requires
            self.wf(),
            address_is_canonical(virtual_address),
        ensures
            ({
                let w = table_walk(self.p4, 4, (Page { number: virtual_address / PAGE_SIZE }));
                match w {
                    Some(f) => r == Some((f * PAGE_SIZE + virtual_address % PAGE_SIZE) as u64),
                    None => r is None,
                }
            }),
    {
        let offset = virtual_address % PAGE_SIZE;
        let page = Page::containing_address(virtual_address);
        match self.translate_page(page) {
            Some(frame) => {
                proof {
                    lemma_walk_frame_bound(self.p4, 4, page);
                }
                Some(frame.number() * PAGE_SIZE + offset)
            },
            None => None,
        }
    }

    /// Map `page` to exactly `frame` with `flags` (PRESENT is always
    /// added), creating intermediate tables as needed.  The page must not
    /// be mapped yet and its path must not cross a huge mapping; the
    /// level-4 recursive slot is reserved.
    pub fn map_to<A: FrameAllocator>(
        &mut self,
        page: Page,
        frame: Frame,
        flags: EntryFlags,
        allocator: &mut A,
    ) -> (r: Result<(), MapError>)
        requires
            old(self).wf(),
            page.spec_p4_index() != 511,
            table_walk(old(self).p4, 4, page) is None,
            path_no_huge(old(self).p4, 4, page),
            frame@ < MAX_ENTRY_FRAME,
            flags & FLAG_MASK == flags,
            old(allocator).alloc_pre(),
        ensures
            final(self).wf(),
            final(allocator).alloc_pre(),
            path_no_huge(final(self).p4, 4, page),
            no_huge_entries(old(self).p4, 4) ==> no_huge_entries(final(self).p4, 4),
            forall|q: Page|
                !same_path_indices(q, page, 4) ==> table_walk(final(self).p4, 4, q) == table_walk(
                    old(self).p4,
                    4,
                    q,
                ),
            forall|q: Page|
                !same_path_indices(q, page, 4) && l1_entry(old(self).p4, 4, q) is Some ==> l1_entry(
                    final(self).p4,
                    4,
                    q,
                ) == l1_entry(old(self).p4, 4, q),
            l1_entry(old(self).p4, 4, page) is Some ==> r is Ok && *final(allocator) == *old(allocator),
            took_frames(*old(allocator), *final(allocator), 3),
            match r {
                Ok(()) => table_walk(final(self).p4, 4, page) == Some(frame@) && l1_entry(
                    final(self).p4,
                    4,
                    page,
                ) == Some((frame@ * PAGE_SIZE + (flags | PRESENT)) as u64),
                Err(e) => e == MapError::FrameExhausted && table_walk(
                    final(self).p4,
                    4,
                    page,
                ) is None,
            },
    {
        map_in_table(&mut self.p4, 4, page, frame, flags, allocator)
    }

    /// Map `page` to a freshly allocated frame; the frame is returned so
    /// that the caller can check the translation.
    pub fn map<A: FrameAllocator>(
        &mut self,
        page: Page,
        flags: EntryFlags,
        allocator: &mut A,
    ) -> (r: Result<Frame, MapError>)
        requires
            old(self).wf(),
            page.spec_p4_index() != 511,
            table_walk(old(self).p4, 4, page) is None,
            path_no_huge(old(self).p4, 4, page),
            flags & FLAG_MASK == flags,
            old(allocator).alloc_pre(),
        ensures
            final(self).wf(),
            final(allocator).alloc_pre(),
            path_no_huge(final(self).p4, 4, page),
            no_huge_entries(old(self).p4, 4) ==> no_huge_entries(final(self).p4, 4),
            forall|q: Page|
                !same_path_indices(q, page, 4) ==> table_walk(final(self).p4, 4, q) == table_walk(
                    old(self).p4,
                    4,
                    q,
                ),
            forall|q: Page|
                !same_path_indices(q, page, 4) && l1_entry(old(self).p4, 4, q) is Some ==> l1_entry(
                    final(self).p4,
                    4,
                    q,
                ) == l1_entry(old(self).p4, 4, q),
            took_frames(*old(allocator), *final(allocator), 4),
            match r {
                Ok(f) => table_walk(final(self).p4, 4, page) == Some(f@) && l1_entry(
                    final(self).p4,
                    4,
                    page,
                ) == Some((f@ * PAGE_SIZE + (flags | PRESENT)) as u64),
                Err(e) => e == MapError::FrameExhausted && table_walk(
                    final(self).p4,
                    4,
                    page,
                ) is None,
            },
    {
        let frame = match allocator.allocate_frame() {
            Some(f) => f,
            None => {
                proof {
                    assert(final(allocator).alloc_post(*old(allocator), None::<Frame>));
                    assert(took_frames::<A>(*final(allocator), *final(allocator), 3));
                    assert(took_frames(*old(allocator), *final(allocator), 4));
                }
                return Err(MapError::FrameExhausted);
            },
        };
        proof {
            assert((*allocator).alloc_post(*old(allocator), Some(frame)));
            assert(took_frames::<A>(*allocator, *allocator, 0));
            assert(took_frames::<A>(*old(allocator), *allocator, 1));
        }
        let ghost alloc_mid = *allocator;
        let r = match self.map_to(page, frame.clone(), flags, allocator) {
            Ok(()) => Ok(frame),
            Err(e) => Err(e),
        };
        proof {
            lemma_took_frames_compose::<A>(*old(allocator), alloc_mid, *final(allocator), 1, 3);
        }
        r
    }

    /// Map a frame to the page at the numerically identical address, for
    /// ranges that must keep a 1:1 virtual-physical relationship.
    pub fn identity_map<A: FrameAllocator>(
        &mut self,
        frame: Frame,
        flags: EntryFlags,
        allocator: &mut A,
    ) -> (r: Result<(), MapError>)
        requires
            old(self).wf(),
            frame@ * PAGE_SIZE < LOW_HALF_END,
            table_walk(old(self).p4, 4, identity_page(frame)) is None,
            path_no_huge(old(self).p4, 4, identity_page(frame)),
            flags & FLAG_MASK == flags,
            old(allocator).alloc_pre(),
        ensures
            final(self).wf(),
            final(allocator).alloc_pre(),
            path_no_huge(final(self).p4, 4, identity_page(frame)),
            no_huge_entries(old(self).p4, 4) ==> no_huge_entries(final(self).p4, 4),
            forall|q: Page|
                !same_path_indices(q, identity_page(frame), 4) ==> table_walk(final(self).p4, 4, q)
                    == table_walk(old(self).p4, 4, q),
            forall|q: Page|
                !same_path_indices(q, identity_page(frame), 4) && l1_entry(old(self).p4, 4, q)
                    is Some ==> l1_entry(final(self).p4, 4, q) == l1_entry(old(self).p4, 4, q),
            l1_entry(old(self).p4, 4, identity_page(frame)) is Some ==> r is Ok && *final(allocator) == *old(allocator),
            took_frames(*old(allocator), *final(allocator), 3),
            match r {
                Ok(()) => table_walk(final(self).p4, 4, identity_page(frame)) == Some(frame@)
                    && l1_entry(final(self).p4, 4, identity_page(frame)) == Some(
                    (frame@ * PAGE_SIZE + (flags | PRESENT)) as u64,
                ),
                Err(e) => e == MapError::FrameExhausted && table_walk(
                    final(self).p4,
                    4,
                    identity_page(frame),
                ) is None,
            },
    {
        proof {
            lemma_low_half_page_index(frame@);
        }
        let page = Page::containing_address(frame.start_address());
        self.map_to(page, frame, flags, allocator)
    }

    /// Remove the mapping of `page`.  A page that is not mapped is left
    /// alone: unmapping twice is a safe no-op.  Emptied intermediate
    /// tables are not reclaimed.
    pub fn unmap<A: FrameAllocator>(&mut self, page: Page, allocator: &mut A)
        requires
            old(self).wf(),
            old(allocator).alloc_pre(),
            table_walk(old(self).p4, 4, page) is Some ==> path_no_huge(old(self).p4, 4, page),
        ensures
            final(self).wf(),
            *final(allocator) == *old(allocator),
            table_walk(final(self).p4, 4, page) is None,
            table_walk(old(self).p4, 4, page) is None ==> *final(self) == *old(self),
            no_huge_entries(old(self).p4, 4) ==> no_huge_entries(final(self).p4, 4),
            forall|q: Page|
                !same_path_indices(q, page, 4) ==> table_walk(final(self).p4, 4, q) == table_walk(
                    old(self).p4,
                    4,
                    q,
                ),
            forall|q: Page|
                !same_path_indices(q, page, 4) && l1_entry(old(self).p4, 4, q) is Some ==> l1_entry(
                    final(self).p4,
                    4,
                    q,
                ) == l1_entry(old(self).p4, 4, q),
    {
        if self.translate_page(page).is_none() {
            return;
        }
        clear_in_table(&mut self.p4, 4, page);
    }
}

/// Walk one table: the executable twin of `table_walk`.
fn walk_table(t: &Table, level: usize, page: Page) -> (r: Option<Frame>)
    requires
        1 <= level <= 4,
        table_wf(*t, level as int),
    ensures
        r is Some == table_walk(*t, level as int, page) is Some,
        r is Some ==> r->0@ == table_walk(*t, level as int, page)->0,
    decreases level,
{
    let i = index_at(page, level);
    proof {
        lemma_page_index_bounds(page, level as int);
    }
    let entry = &t.entries[i];
    if level == 1 {
        return entry.pointed_frame();
    }
    let fl = entry.flags();
    proof {
        lemma_flag_bits(t.entries@[i as int].value());
    }
    if fl & PRESENT == PRESENT && fl & HUGE_PAGE == HUGE_PAGE {
        let start = match entry.pointed_frame() {
            Some(f) => f,
            None => {
                proof {
                    assert(false);
                }
                return None;
            },
        };
        proof {
            lemma_entry_frame_bound(t.entries@[i as int].value());
        }
        if level == 3 {
            assert(start@ as int % (512int * 512) == 0);
            let n = start.number() + (page.p2_index() as u64) * 512 + (page.p1_index() as u64);
            return Some(Frame { number: n });
        } else if level == 2 {
            assert(start@ as int % 512int == 0);
            let n = start.number() + (page.p1_index() as u64);
            return Some(Frame { number: n });
        } else {
            return None;
        }
    }
    match t.next_table(i) {
        Some(child) => walk_table(child, level - 1, page),
        None => None,
    }
}

/// The table index a page selects at a level.
fn index_at(page: Page, level: usize) -> (i: usize)
    requires
        1 <= level <= 4,
    ensures
        i == page_index_at(page, level as int),
        i < 512,
{
    if level == 4 {
        page.p4_index()
    } else if level == 3 {
        page.p3_index()
    } else if level == 2 {
        page.p2_index()
    } else {
        page.p1_index()
    }
}

/// Install `frame | flags | PRESENT` in the level-1 slot that `page`
/// selects under `t`, creating child tables on the way down.
fn map_in_table<A: FrameAllocator>(
    t: &mut Table,
    level: usize,
    page: Page,
    frame: Frame,
    flags: EntryFlags,
    allocator: &mut A,
) -> (r: Result<(), MapError>)
    requires
        1 <= level <= 4,
        table_wf(*old(t), level as int),
        level == 4 ==> page.spec_p4_index() != 511,
        table_walk(*old(t), level as int, page) is None,
        path_no_huge(*old(t), level as int, page),
        frame@ < MAX_ENTRY_FRAME,
        flags & FLAG_MASK == flags,
        old(allocator).alloc_pre(),
    ensures
        final(allocator).alloc_pre(),
        table_wf(*final(t), level as int),
        path_no_huge(*final(t), level as int, page),
        no_huge_entries(*old(t), level as int) ==> no_huge_entries(*final(t), level as int),
        forall|q: Page|
            !same_path_indices(q, page, level as int) ==> table_walk(*final(t), level as int, q)
                == table_walk(*old(t), level as int, q),
        forall|q: Page|
            !same_path_indices(q, page, level as int) && l1_entry(*old(t), level as int, q)
                is Some ==> l1_entry(*final(t), level as int, q) == l1_entry(
                *old(t),
                level as int,
                q,
            ),
        l1_entry(*old(t), level as int, page) is Some ==> r is Ok && *final(allocator) == *old(allocator),
        took_frames(*old(allocator), *final(allocator), level as int - 1),
        match r {
            Ok(()) => table_walk(*final(t), level as int, page) == Some(frame@) && l1_entry(
                *final(t),
                level as int,
                page,
            ) == Some((frame@ * PAGE_SIZE + (flags | PRESENT)) as u64),
            Err(e) => e == MapError::FrameExhausted && table_walk(
                *final(t),
                level as int,
                page,
            ) is None,
        },
    decreases level,
{
    let ghost pre = *old(t);
    let i = index_at(page, level);
    proof {
        lemma_or_present(flags);
        lemma_present_writable();
    }
    if level == 1 {
        assert(t.entries@[i as int].value() == 0);
        let entry = &mut t.entries[i];
        entry.set(frame, flags | PRESENT);
        proof {
            let v = t.entries@[i as int].value();
            lemma_flag_bits(v);
            assert(t.entries@ == pre.entries@.update(i as int, t.entries@[i as int]));
            assert(table_wf(*t, 1));
            assert forall|q: Page| !same_path_indices(q, page, 1) implies table_walk(*t, 1, q)
                == table_walk(pre, 1, q) && l1_entry(*t, 1, q) == l1_entry(pre, 1, q) by {
                assert(same_path_indices(q, page, 0));
                assert(page_index_at(q, 1) != page_index_at(page, 1));
                lemma_page_index_bounds(q, 1);
            }
        }
        return Ok(());
    }
    if t.children[i].is_none() {
        proof {
            // The page's path breaks here, so no level-1 entry exists yet.
            assert(l1_entry(pre, level as int, page) is None);
        }
        let new_frame = match allocator.allocate_frame() {
            Some(f) => f,
            None => {
                proof {
                    assert(*t == pre);
                    assert(final(allocator).alloc_post(*old(allocator), None::<Frame>));
                    assert(took_frames::<A>(
                        *final(allocator),
                        *final(allocator),
                        level as int - 2,
                    ));
                    assert(took_frames(*old(allocator), *final(allocator), level as int - 1));
                }
                return Err(MapError::FrameExhausted);
            },
        };
        assert(new_frame@ < MAX_ENTRY_FRAME);
        proof {
            // One frame was drawn for the new table.
            assert((*allocator).alloc_post(*old(allocator), Some(new_frame)));
            assert(took_frames::<A>(*allocator, *allocator, 0));
            assert(took_frames::<A>(*old(allocator), *allocator, 1));
        }
        let entry = &mut t.entries[i];
        entry.set(new_frame, PRESENT | WRITABLE);
        let child = Table::new_zeroed();
        proof {
            lemma_zeroed_table(child, level as int - 1);
            let v = t.entries@[i as int].value();
            lemma_flag_bits(v);
        }
        let ghost child_snap = child;
        t.children[i] = Some(Box::new(child));
        proof {
            assert(t.entries@ == pre.entries@.update(i as int, t.entries@[i as int]));
            assert(t.children@ == pre.children@.update(i as int, t.children@[i as int]));
            assert(t.children@[i as int] matches Some(c) && *c == child_snap);
            assert(spec_has_flags(t.entries@[i as int].value(), PRESENT));
            assert(!spec_has_flags(t.entries@[i as int].value(), HUGE_PAGE));
            assert(table_walk(child_snap, level as int - 1, page) is None);
            assert(path_no_huge(child_snap, level as int - 1, page));
            assert(table_wf(*t, level as int));
            assert(table_walk(*t, level as int, page) is None);
            assert(path_no_huge(*t, level as int, page));
            assert(!spec_has_flags(pre.entries@[i as int].value(), PRESENT));
            assert forall|q: Page| page_index_at(q, level as int) == i as int implies table_walk(
                pre,
                level as int,
                q,
            ) is None && l1_entry(pre, level as int, q) is None by {}
        }
    }
    let ghost mid = *t;
    let ghost alloc_mid = *allocator;
    let mut child_opt = t.children[i].take();
    match child_opt {
        Some(mut boxed) => {
            proof {
                assert(spec_has_flags(mid.entries@[i as int].value(), PRESENT)
                    && !spec_has_flags(mid.entries@[i as int].value(), HUGE_PAGE));
                assert(table_wf(*boxed, level as int - 1));
                assert(table_walk(*boxed, level as int - 1, page) is None);
                assert(path_no_huge(*boxed, level as int - 1, page));
            }
            let ghost child_pre = *boxed;
            let res = map_in_table(&mut *boxed, level - 1, page, frame, flags, allocator);
            let ghost child_final = *boxed;
            t.children[i] = Some(boxed);
            proof {
                assert(t.entries@ == mid.entries@);
                assert(t.children@ == mid.children@.update(i as int, t.children@[i as int]));
                assert(t.children@[i as int] matches Some(c) && *c == child_final);
                assert(table_wf(*t, level as int));
                assert(path_no_huge(*t, level as int, page));
                // The draw bound: one step to `alloc_mid` when a table was
                // created, then whatever the child drew.
                if mid == pre {
                    lemma_took_frames_widen::<A>(
                        *old(allocator),
                        *final(allocator),
                        level as int - 2,
                        level as int - 1,
                    );
                } else {
                    lemma_took_frames_compose::<A>(
                        *old(allocator),
                        alloc_mid,
                        *final(allocator),
                        1,
                        level as int - 2,
                    );
                }
                // Success is owed when the whole path already exists.
                if l1_entry(pre, level as int, page) is Some {
                    assert(mid == pre);
                    assert(l1_entry(child_pre, level as int - 1, page) is Some);
                    assert(res is Ok);
                }
                assert forall|q: Page| !same_path_indices(q, page, level as int) implies
                    table_walk(*t, level as int, q) == table_walk(pre, level as int, q) && (
                l1_entry(pre, level as int, q) is Some ==> l1_entry(*t, level as int, q)
                    == l1_entry(pre, level as int, q)) by {
                    lemma_page_index_bounds(q, level as int);
                    let qi = page_index_at(q, level as int);
                    if qi != i as int {
                        assert(t.entries@[qi] == pre.entries@[qi]);
                        assert(t.children@[qi] == pre.children@[qi]);
                    } else {
                        assert(!same_path_indices(q, page, level as int - 1));
                        assert(table_walk(child_final, level as int - 1, q) == table_walk(
                            child_pre,
                            level as int - 1,
                            q,
                        ));
                        if mid != pre {
                            assert(table_walk(child_pre, level as int - 1, q) is None);
                            assert(table_walk(pre, level as int, q) is None);
                            assert(l1_entry(pre, level as int, q) is None);
                        } else {
                            if l1_entry(pre, level as int, q) is Some {
                                assert(l1_entry(child_pre, level as int - 1, q) is Some);
                                assert(l1_entry(child_final, level as int - 1, q) == l1_entry(
                                    child_pre,
                                    level as int - 1,
                                    q,
                                ));
                            }
                        }
                    }
                }
                assert(no_huge_entries(pre, level as int) ==> no_huge_entries(
                    *t,
                    level as int,
                )) by {
                    if no_huge_entries(pre, level as int) {
                        if mid == pre {
                            assert(no_huge_entries(child_pre, level as int - 1));
                        } else {
                            assert(no_huge_entries(child_pre, level as int - 1));
                        }
                        assert(no_huge_entries(child_final, level as int - 1));
                        assert forall|j: int| 0 <= j < 512 implies {
                            &&& !(spec_has_flags(#[trigger] t.entries@[j].value(), PRESENT)
                                && spec_has_flags(t.entries@[j].value(), HUGE_PAGE))
                            &&& match t.children@[j] {
                                Some(c) => no_huge_entries(*c, level as int - 1),
                                None => true,
                            }
                        } by {
                            if j != i as int {
                                assert(t.entries@[j] == pre.entries@[j]);
                                assert(t.children@[j] == pre.children@[j]);
                            }
                        }
                    }
                }
            }
            res
        },
        None => {
            proof {
                assert(false);
            }
            Err(MapError::FrameExhausted)
        },
    }
}

/// Clear the level-1 slot that `page` selects under `t`.
fn clear_in_table(t: &mut Table, level: usize, page: Page)
    requires
        1 <= level <= 4,
        table_wf(*old(t), level as int),
        table_walk(*old(t), level as int, page) is Some,
        path_no_huge(*old(t), level as int, page),
    ensures
        table_wf(*final(t), level as int),
        table_walk(*final(t), level as int, page) is None,
        no_huge_entries(*old(t), level as int) ==> no_huge_entries(*final(t), level as int),
        forall|q: Page|
            !same_path_indices(q, page, level as int) ==> table_walk(*final(t), level as int, q)
                == table_walk(*old(t), level as int, q),
        forall|q: Page|
            !same_path_indices(q, page, level as int) && l1_entry(*old(t), level as int, q)
                is Some ==> l1_entry(*final(t), level as int, q) == l1_entry(
                *old(t),
                level as int,
                q,
            ),
    decreases level,
{
    let ghost pre = *old(t);
    let i = index_at(page, level);
    if level == 1 {
        let entry = &mut t.entries[i];
        entry.set_unused();
        proof {
            assert(0u64 & 0x1 != 0x1) by (bit_vector);
            assert(t.entries@ == pre.entries@.update(i as int, t.entries@[i as int]));
            assert(table_wf(*t, 1));
            assert forall|q: Page| !same_path_indices(q, page, 1) implies table_walk(*t, 1, q)
                == table_walk(pre, 1, q) && l1_entry(*t, 1, q) == l1_entry(pre, 1, q) by {
                assert(same_path_indices(q, page, 0));
                assert(page_index_at(q, 1) != page_index_at(page, 1));
                lemma_page_index_bounds(q, 1);
            }
        }
        return;
    }
    let ghost mid = *t;
    let mut child_opt = t.children[i].take();
    match child_opt {
        Some(mut boxed) => {
            proof {
                assert(table_wf(*boxed, level as int - 1));
                assert(table_walk(*boxed, level as int - 1, page) is Some);
                assert(path_no_huge(*boxed, level as int - 1, page));
            }
            let ghost child_pre = *boxed;
            clear_in_table(&mut *boxed, level - 1, page);
            let ghost child_final = *boxed;
            t.children[i] = Some(boxed);
            proof {
                assert(t.entries@ == mid.entries@);
                assert(t.children@ == mid.children@.update(i as int, t.children@[i as int]));
                assert(t.children@[i as int] matches Some(c) && *c == child_final);
                assert(table_wf(*t, level as int));
                assert forall|q: Page| !same_path_indices(q, page, level as int) implies
                    table_walk(*t, level as int, q) == table_walk(pre, level as int, q) && (
                l1_entry(pre, level as int, q) is Some ==> l1_entry(*t, level as int, q)
                    == l1_entry(pre, level as int, q)) by {
                    lemma_page_index_bounds(q, level as int);
                    let qi = page_index_at(q, level as int);
                    if qi != i as int {
                        assert(t.entries@[qi] == pre.entries@[qi]);
                        assert(t.children@[qi] == pre.children@[qi]);
                    } else {
                        assert(!same_path_indices(q, page, level as int - 1));
                        assert(table_walk(child_final, level as int - 1, q) == table_walk(
                            child_pre,
                            level as int - 1,
                            q,
                        ));
                        if l1_entry(pre, level as int, q) is Some {
                            assert(l1_entry(child_pre, level as int - 1, q) is Some);
                            assert(l1_entry(child_final, level as int - 1, q) == l1_entry(
                                child_pre,
                                level as int - 1,
                                q,
                            ));
                        }
                    }
                }
                assert(no_huge_entries(pre, level as int) ==> no_huge_entries(
                    *t,
                    level as int,
                )) by {
                    if no_huge_entries(pre, level as int) {
                        assert(no_huge_entries(child_pre, level as int - 1));
                        assert(no_huge_entries(child_final, level as int - 1));
                        assert forall|j: int| 0 <= j < 512 implies {
                            &&& !(spec_has_flags(#[trigger] t.entries@[j].value(), PRESENT)
                                && spec_has_flags(t.entries@[j].value(), HUGE_PAGE))
                            &&& match t.children@[j] {
                                Some(c) => no_huge_entries(*c, level as int - 1),
                                None => true,
                            }
                        } by {
                            if j != i as int {
                                assert(t.entries@[j] == pre.entries@[j]);
                                assert(t.children@[j] == pre.children@[j]);
                            }
                        }
                    }
                }
            }
        },
        None => {
            proof {
                assert(false);
            }
        },
    }
}

/// A walked-to frame number stays below the entry address bound, so the
/// offset arithmetic in `translate` cannot overflow.
proof fn lemma_walk_frame_bound(t: Table, level: int, page: Page)
    requires
        table_wf(t, level),
        1 <= level <= 4,
    ensures
        match table_walk(t, level, page) {
            Some(f) => f < MAX_ENTRY_FRAME + 512 * 512 + 512,
            None => true,
        },
    decreases level,
{
    let i = page_index_at(page, level);
    lemma_page_index_bounds(page, level);
    lemma_page_index_bounds(page, 2);
    lemma_page_index_bounds(page, 1);
    lemma_entry_frame_bound(t.entries@[i].value());
    if level > 1 {
        match t.children@[i] {
            Some(c) => {
                lemma_walk_frame_bound(*c, level - 1, page);
            },
            None => {},
        }
    }
}

/// Frames in the low half of the address space identity-map onto pages
/// whose level-4 index is below the recursive slot.
proof fn lemma_low_half_page_index(n: u64)
    requires
        n * PAGE_SIZE < LOW_HALF_END,
    ensures
        address_is_canonical((n * PAGE_SIZE) as u64),
        (n * PAGE_SIZE) as u64 / PAGE_SIZE == n,
        (Page { number: n }).spec_p4_index() != 511,
        n * PAGE_SIZE <= u64::MAX,
{
    assert(n * 4096 < 0x0000_8000_0000_0000 ==> ((n * 4096) as u64 / 4096 == n && n
        < 0x8_0000_0000 && (n >> 27) & 511 < 256)) by (bit_vector);
}

} // verus!
