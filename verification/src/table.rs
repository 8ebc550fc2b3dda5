//! The four-level page-table model.
//!
//! Hardware reaches a child table through the physical address in the
//! parent's entry, made dereferencable by the recursive mapping.  Here the
//! parent owns its child tables outright, and the entry still records the
//! frame the child occupies: the raw-pointer continuation trick stays
//! encapsulated at the hardware edge, outside this crate.
//!
//! A table at level `l` (4 down to 1) is well formed when every owned
//! child sits under a present, non-huge entry, every present non-huge
//! interior entry owns a child (the level-4 recursive slot 511 excepted),
//! huge entries are aligned to their granularity, and leaf entries are
//! either present or zero.

use vstd::prelude::*;

verus! {

use crate::flags::Entry;
use crate::flags::spec_has_flags;
use crate::flags::spec_entry_frame;
use crate::flags::spec_entry_flags;
use crate::flags::PRESENT;
use crate::flags::WRITABLE;
use crate::flags::HUGE_PAGE;
use crate::flags::lemma_flag_bits;
use crate::flags::lemma_present_writable;
use crate::frame::FrameAllocator;
use crate::frame::MAX_PHYSICAL_ADDRESS;
use crate::frame::PAGE_SIZE;
use crate::page::Page;

pub const ENTRY_COUNT: usize = 512;

/// Marker for the four levels of the hierarchy.
pub trait TableLevel {}

pub enum Level4 {
    Marker,
}

pub enum Level3 {
    Marker,
}

pub enum Level2 {
    Marker,
}

pub enum Level1 {
    Marker,
}

impl TableLevel for Level4 {}

impl TableLevel for Level3 {}

impl TableLevel for Level2 {}

impl TableLevel for Level1 {}

/// The levels whose entries point to further tables.
pub trait HeirarchicalLevel: TableLevel {
    type NextLevel: TableLevel;
}

impl HeirarchicalLevel for Level4 {
    type NextLevel = Level3;
}

impl HeirarchicalLevel for Level3 {
    type NextLevel = Level2;
}

impl HeirarchicalLevel for Level2 {
    type NextLevel = Level1;
}

/// One page table: 512 entries, and ownership of the child table behind
/// each interior entry.
pub struct Table {
    pub entries: Vec<Entry>,
    pub children: Vec<Option<Box<Table>>>,
}

/// The index a page selects at the given level.
pub open spec fn page_index_at(page: Page, level: int) -> int {
    if level == 4 {
        page.spec_p4_index()
    } else if level == 3 {
        page.spec_p3_index()
    } else if level == 2 {
        page.spec_p2_index()
    } else {
        page.spec_p1_index()
    }
}

/// Well-formedness of a table standing at `level`.
pub open spec fn table_wf(t: Table, level: int) -> bool
    decreases level,
{
    &&& 1 <= level <= 4
    &&& t.entries@.len() == 512
    &&& t.children@.len() == 512
    &&& (forall|i: int|
        0 <= i < 512 ==> match #[trigger] t.children@[i] {
            Some(c) => level > 1 && spec_has_flags(t.entries@[i].value(), PRESENT)
                && !spec_has_flags(t.entries@[i].value(), HUGE_PAGE) && table_wf(*c, level - 1),
            None => true,
        })
    &&& (forall|i: int|
        0 <= i < 512 && level > 1 && spec_has_flags(#[trigger] t.entries@[i].value(), PRESENT)
            && !spec_has_flags(t.entries@[i].value(), HUGE_PAGE) && !(level == 4 && i == 511)
            ==> t.children@[i] is Some)
    &&& (forall|i: int|
        0 <= i < 512 && level == 3 && spec_has_flags(#[trigger] t.entries@[i].value(), PRESENT)
            && spec_has_flags(t.entries@[i].value(), HUGE_PAGE)
            ==> spec_entry_frame(t.entries@[i].value()) as int % (512int * 512) == 0)
    &&& (forall|i: int|
        0 <= i < 512 && level == 2 && spec_has_flags(#[trigger] t.entries@[i].value(), PRESENT)
            && spec_has_flags(t.entries@[i].value(), HUGE_PAGE)
            ==> spec_entry_frame(t.entries@[i].value()) as int % 512int == 0)
    &&& (forall|i: int|
        0 <= i < 512 && level == 1 ==> ((#[trigger] t.entries@[i].value()) == 0 || spec_has_flags(
            t.entries@[i].value(),
            PRESENT,
        )))
}

/// The frame number a page translates to under `t`, following owned child
/// tables, honouring huge entries at levels 3 and 2.
pub open spec fn table_walk(t: Table, level: int, page: Page) -> Option<u64>
    decreases level,
{
    if level < 1 {
        None
    } else {
        let i = page_index_at(page, level);
        let e = t.entries@[i].value();
        if level == 1 {
            if spec_has_flags(e, PRESENT) {
                Some(spec_entry_frame(e))
            } else {
                None
            }
        } else if spec_has_flags(e, PRESENT) && spec_has_flags(e, HUGE_PAGE) {
            if level == 3 {
                Some((spec_entry_frame(e) + page.spec_p2_index() * 512 + page.spec_p1_index()) as u64)
            } else if level == 2 {
                Some((spec_entry_frame(e) + page.spec_p1_index()) as u64)
            } else {
                None
            }
        } else {
            match t.children@[i] {
                Some(c) => table_walk(*c, level - 1, page),
                None => None,
            }
        }
    }
}

/// No present huge entry stands on the page's path through `t`.
pub open spec fn path_no_huge(t: Table, level: int, page: Page) -> bool
    decreases level,
{
    if level <= 1 {
        true
    } else {
        let i = page_index_at(page, level);
        let e = t.entries@[i].value();
        &&& !(spec_has_flags(e, PRESENT) && spec_has_flags(e, HUGE_PAGE))
        &&& match t.children@[i] {
            Some(c) => path_no_huge(*c, level - 1, page),
            None => true,
        }
    }
}

/// The raw value of the level-1 entry the page's path leads to, if the
/// child tables on the path all exist.
pub open spec fn l1_entry(t: Table, level: int, page: Page) -> Option<u64>
    decreases level,
{
    if level < 1 {
        None
    } else {
        let i = page_index_at(page, level);
        if level == 1 {
            Some(t.entries@[i].value())
        } else {
            match t.children@[i] {
                Some(c) => l1_entry(*c, level - 1, page),
                None => None,
            }
        }
    }
}

/// No present huge entry stands anywhere in the hierarchy's interior
/// levels.  Tables built by this crate's mapping operations alone always
/// satisfy it: nothing here creates huge mappings.
pub open spec fn no_huge_entries(t: Table, level: int) -> bool
    decreases level,
{
    level <= 1 || (forall|i: int|
        0 <= i < 512 ==> {
            &&& !(spec_has_flags(#[trigger] t.entries@[i].value(), PRESENT) && spec_has_flags(
                t.entries@[i].value(),
                HUGE_PAGE,
            ))
            &&& match t.children@[i] {
                Some(c) => no_huge_entries(*c, level - 1),
                None => true,
            }
        })
}

/// A hierarchy without huge entries has a huge-free path for every page.
pub proof fn lemma_no_huge_path(t: Table, level: int, page: Page)
    requires
        no_huge_entries(t, level),
        table_wf(t, level),
    ensures
        path_no_huge(t, level, page),
    decreases level,
{
    if level > 1 {
        let i = page_index_at(page, level);
        lemma_page_index_bounds(page, level);
        match t.children@[i] {
            Some(c) => {
                lemma_no_huge_path(*c, level - 1, page);
            },
            None => {},
        }
    }
}

/// Whether two pages select the same slot at `level` and all the levels
/// below it.
pub open spec fn same_path_indices(q: Page, p: Page, level: int) -> bool
    decreases level,
{
    level < 1 || (page_index_at(q, level) == page_index_at(p, level) && same_path_indices(
        q,
        p,
        level - 1,
    ))
}

/// A table of 512 zero entries with no children.
pub open spec fn table_zeroed(t: Table) -> bool {
    &&& t.entries@.len() == 512
    &&& t.children@.len() == 512
    &&& (forall|i: int| 0 <= i < 512 ==> (#[trigger] t.entries@[i].value()) == 0)
    &&& (forall|i: int| 0 <= i < 512 ==> (#[trigger] t.children@[i]) is None)
}

/// A zeroed table is well formed at every level and translates nothing.
pub proof fn lemma_zeroed_table(t: Table, level: int)
    requires
        table_zeroed(t),
        1 <= level <= 4,
    ensures
        table_wf(t, level),
        no_huge_entries(t, level),
        forall|page: Page| table_walk(t, level, page) == None::<u64>,
        forall|page: Page| path_no_huge(t, level, page),
{
    assert(forall|e: u64| e == 0 ==> !spec_has_flags(e, PRESENT)) by {
        assert(0u64 & 0x1 != 0x1) by (bit_vector);
    }
    assert forall|page: Page| table_walk(t, level, page) == None::<u64> by {
        let i = page_index_at(page, level);
        assert(0 <= i < 512) by {
            lemma_page_index_bounds(page, level);
        }
    }
    assert forall|page: Page| path_no_huge(t, level, page) by {
        let i = page_index_at(page, level);
        assert(0 <= i < 512) by {
            lemma_page_index_bounds(page, level);
        }
    }
}

/// Page indices always lie below 512.
pub proof fn lemma_page_index_bounds(page: Page, level: int)
    ensures
        0 <= page_index_at(page, level) < 512,
{
    let n = page.number;
    assert((n >> 27) & 511 < 512 && (n >> 18) & 511 < 512 && (n >> 9) & 511 < 512 && n & 511
        < 512) by (bit_vector);
}

impl Table {
    /// A fresh zeroed table.
    pub(crate) fn new_zeroed() -> (r: Table)
        ensures
            table_zeroed(r),
    {
        let mut entries: Vec<Entry> = Vec::new();
        let mut children: Vec<Option<Box<Table>>> = Vec::new();
        let mut i: usize = 0;
        while i < ENTRY_COUNT
            invariant
                i <= 512,
                entries@.len() == i,
                children@.len() == i,
                forall|k: int| 0 <= k < i ==> (#[trigger] entries@[k].value()) == 0,
                forall|k: int| 0 <= k < i ==> (#[trigger] children@[k]) is None,
            decreases 512 - i,
        {
            entries.push(Entry(0));
            children.push(None);
            i = i + 1;
        }
        Table { entries, children }
    }

    /// Clear every entry and drop every child table.
    pub fn zero(&mut self)
        requires
            old(self).entries@.len() == 512,
            old(self).children@.len() == 512,
        ensures
            table_zeroed(*final(self)),
    {
        let mut i: usize = 0;
        while i < ENTRY_COUNT
            invariant
                i <= 512,
                self.entries@.len() == 512,
                self.children@.len() == 512,
                forall|k: int| 0 <= k < i ==> (#[trigger] self.entries@[k].value()) == 0,
                forall|k: int| 0 <= k < i ==> (#[trigger] self.children@[k]) is None,
            decreases 512 - i,
        {
            self.entries[i].set_unused();
            self.children[i] = None;
            i = i + 1;
        }
    }


    /// The child table behind entry `index`, created on demand: a fresh
    /// frame is drawn from the allocator, the entry is marked
    /// PRESENT | WRITABLE, and the new table starts zeroed.  A huge entry
    /// must never be subdivided.  `None` reports frame exhaustion, which
    /// callers treat as fatal at boot.
    pub fn next_table_create<A: FrameAllocator>(&mut self, index: usize, allocator: &mut A) -> (r:
        Option<&mut Table>)
        requires
            old(self).entries@.len() == 512,
            old(self).children@.len() == 512,
            index < 512,
            !(spec_has_flags(old(self).entries@[index as int].value(), PRESENT) && spec_has_flags(
                old(self).entries@[index as int].value(),
                HUGE_PAGE,
            )),
            old(allocator).alloc_pre(),
        ensures
            final(allocator).alloc_pre(),
            match r {
                Some(t) => {
                    &&& final(self).entries@.len() == 512
                    &&& final(self).children@.len() == 512
                    &&& final(self).children@[index as int] is Some
                    &&& *final(self).children@[index as int]->0 == *final(t)
                    &&& (forall|j: int|
                        0 <= j < 512 && j != index ==> final(self).children@[j] == old(
                            self,
                        ).children@[j] && final(self).entries@[j] == old(self).entries@[j])
                    &&& match old(self).children@[index as int] {
                        Some(c) => *t == *c && final(self).entries@[index as int] == old(
                            self,
                        ).entries@[index as int],
                        None => table_zeroed(*t) && spec_entry_flags(
                            final(self).entries@[index as int].value(),
                        ) == PRESENT | WRITABLE && spec_has_flags(
                            final(self).entries@[index as int].value(),
                            PRESENT,
                        ) && !spec_has_flags(
                            final(self).entries@[index as int].value(),
                            HUGE_PAGE,
                        ) && spec_entry_frame(final(self).entries@[index as int].value())
                            * PAGE_SIZE < MAX_PHYSICAL_ADDRESS,
                    }
                },
                None => *final(self) == *old(self),
            },
    {
        if self.children[index].is_none() {
            let frame = match allocator.allocate_frame() {
                Some(f) => f,
                None => {
                    return None;
                },
            };
            proof {
                lemma_present_writable();
            }
            let entry = &mut self.entries[index];
            entry.set(frame, PRESENT | WRITABLE);
            proof {
                lemma_flag_bits(self.entries@[index as int].value());
            }
            let child = Table::new_zeroed();
            self.children[index] = Some(Box::new(child));
        }
        match &mut self.children[index] {
            Some(b) => Some(&mut **b),
            None => {
                proof {
                    assert(false);
                }
                None
            },
        }
    }

    /// The owned table behind entry `index`, if one exists.
    pub fn next_table(&self, index: usize) -> (r: Option<&Table>)
        requires
            self.children@.len() == 512,
            index < 512,
        ensures
            r is Some == self.children@[index as int] is Some,
            r is Some ==> *r->0 == *self.children@[index as int]->0,
    {
        match &self.children[index] {
            Some(b) => Some(&**b),
            None => None,
        }
    }
}

} // verus!
