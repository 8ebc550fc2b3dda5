//! Virtual pages: one 4096-byte unit of virtual address space, named by
//! its index, restricted to canonical addresses.  A page number decomposes
//! into four 9-bit indices that steer the four-level table walk.

use vstd::prelude::*;

verus! {

use crate::frame::PAGE_SIZE;

/// Lowest non-canonical address: the low half ends here.
pub const LOW_HALF_END: u64 = 0x0000_8000_0000_0000;

/// First address of the canonical high half.
pub const HIGH_HALF_START: u64 = 0xffff_8000_0000_0000;

/// Whether a virtual address is canonical.
pub open spec fn address_is_canonical(address: u64) -> bool {
    address < LOW_HALF_END || address >= HIGH_HALF_START
}

/// A 4096-byte unit of virtual address space, named by its index.
#[derive(Debug, Clone, Copy, PartialEq, Eq, Structural, PartialOrd, Ord)]
pub struct Page {
    pub number: u64,
}

impl View for Page {
    type V = u64;

    open spec fn view(&self) -> u64 {
        self.number
    }
}

impl Page {
    pub open spec fn spec_p4_index(self) -> int {
        ((self.number >> 27) & 0o777) as int
    }

    pub open spec fn spec_p3_index(self) -> int {
        ((self.number >> 18) & 0o777) as int
    }

    pub open spec fn spec_p2_index(self) -> int {
        ((self.number >> 9) & 0o777) as int
    }

    pub open spec fn spec_p1_index(self) -> int {
        (self.number & 0o777) as int
    }

    /// The page holding the given virtual address.  Only canonical
    /// addresses name pages; anything else is a caller error.
    pub fn containing_address(address: u64) -> (r: Page)
        requires
            address_is_canonical(address),
        ensures
            r@ == address / PAGE_SIZE,
    {
        Page { number: address / PAGE_SIZE }
    }

    /// All pages from `start` to `end`, both included.
    pub fn range_inclusive(start: Page, end: Page) -> (r: PageIter)
        ensures
            r.start == start,
            r.end == end,
    {
        PageIter { start, end }
    }

    /// The virtual address of the page's first byte.
    pub fn start_address(&self) -> (a: u64)
        requires
            self@ * PAGE_SIZE <= u64::MAX,
        ensures
            a == self@ * PAGE_SIZE,
    {
        self.number * PAGE_SIZE
    }

    /// The page's index in the level-4 table.
    pub fn p4_index(&self) -> (i: usize)
        ensures
            i == self.spec_p4_index(),
            i < 512,
    {
        proof {
            lemma_index_bound(self.number);
        }
        ((self.number >> 27) & 0o777) as usize
    }

    /// The page's index in the level-3 table.
    pub fn p3_index(&self) -> (i: usize)
        ensures
            i == self.spec_p3_index(),
            i < 512,
    {
        proof {
            lemma_index_bound(self.number);
        }
        ((self.number >> 18) & 0o777) as usize
    }

    /// The page's index in the level-2 table.
    pub fn p2_index(&self) -> (i: usize)
        ensures
            i == self.spec_p2_index(),
            i < 512,
    {
        proof {
            lemma_index_bound(self.number);
        }
        ((self.number >> 9) & 0o777) as usize
    }

    /// The page's index in the level-1 table.
    pub fn p1_index(&self) -> (i: usize)
        ensures
            i == self.spec_p1_index(),
            i < 512,
    {
        proof {
            lemma_index_bound(self.number);
        }
        (self.number & 0o777) as usize
    }
}

/// Each 9-bit slice of a page number is an index below 512.
proof fn lemma_index_bound(n: u64)
    ensures
        (n >> 27) & 0o777 < 512,
        (n >> 18) & 0o777 < 512,
        (n >> 9) & 0o777 < 512,
        n & 0o777 < 512,
{
    assert((n >> 27) & 511 < 512 && (n >> 18) & 511 < 512 && (n >> 9) & 511 < 512 && n & 511
        < 512) by (bit_vector);
}

/// Walks a page range front to back.
pub struct PageIter {
    pub start: Page,
    pub end: Page,
}

impl PageIter {
    /// The next page of the range, if one is left.
    pub fn next(&mut self) -> (r: Option<Page>)
        requires
            old(self).start@ <= u64::MAX - 1,
        ensures
            final(self).end == old(self).end,
            old(self).start@ <= old(self).end@ ==> r == Some(old(self).start)
                && final(self).start@ == old(self).start@ + 1,
            old(self).start@ > old(self).end@ ==> r == None::<Page>
                && final(self).start == old(self).start,
    {
        if self.start.number <= self.end.number {
            let page = self.start;
            self.start.number = self.start.number + 1;
            Some(page)
        } else {
            None
        }
    }
}

} // verus!
