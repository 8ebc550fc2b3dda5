//! Page-table entry encoding: a 64-bit value holding a frame address in
//! bits 12..51 and flag bits at 0..8 and 63.

use vstd::prelude::*;

verus! {

use crate::frame::Frame;
use crate::frame::PAGE_SIZE;

/// Access flags of a page-table entry, as a bitmask.
pub type EntryFlags = u64;

pub const PRESENT: EntryFlags = 0x1;
pub const WRITABLE: EntryFlags = 0x2;
pub const USER_ACCESSIBLE: EntryFlags = 0x4;
pub const WRITE_THROUGH: EntryFlags = 0x8;
pub const NO_CACHE: EntryFlags = 0x10;
pub const ACCESSED: EntryFlags = 0x20;
pub const DIRTY: EntryFlags = 0x40;
pub const HUGE_PAGE: EntryFlags = 0x80;
pub const GLOBAL: EntryFlags = 0x100;
pub const NO_EXECUTE: EntryFlags = 0x8000_0000_0000_0000;

/// All defined flag bits; `Entry::flags` masks everything else away.
pub const FLAG_MASK: u64 = 0x8000_0000_0000_01ff;

/// The bits of an entry that hold the pointed frame's physical address.
pub const ADDR_MASK: u64 = 0x000f_ffff_ffff_f000;

/// Frame numbers must fit in the 40 address bits of an entry.
pub const MAX_ENTRY_FRAME: u64 = 0x100_0000_0000;

/// The flag bits of a raw entry value.
pub open spec fn spec_entry_flags(e: u64) -> u64 {
    e & FLAG_MASK
}

/// The frame number encoded in a raw entry value.
pub open spec fn spec_entry_frame(e: u64) -> u64 {
    (e & ADDR_MASK) / (PAGE_SIZE as u64)
}

/// Whether a raw entry value has the given flag bits all set.
pub open spec fn spec_has_flags(e: u64, f: u64) -> bool {
    e & f == f
}

/// One slot of a page table.
pub struct Entry(pub u64);

impl Entry {
    /// The raw 64-bit value of the entry.
    pub open spec fn value(self) -> u64 {
        self.0
    }

    pub fn is_unused(&self) -> (r: bool)
        ensures
            r == (self.value() == 0),
    {
        self.0 == 0
    }

    pub fn set_unused(&mut self)
        ensures
            final(self).value() == 0,
    {
        self.0 = 0;
    }

    /// The defined flag bits of the entry; reserved bits are masked away.
    pub fn flags(&self) -> (r: EntryFlags)
        ensures
            r == spec_entry_flags(self.value()),
    {
        self.0 & FLAG_MASK
    }

    /// The frame this entry points to, if the entry is present.
    pub fn pointed_frame(&self) -> (r: Option<Frame>)
        ensures
            r == (if spec_has_flags(self.value(), PRESENT) {
                Some(Frame::from_number(spec_entry_frame(self.value())))
            } else {
                None::<Frame>
            }),
    {
        proof {
            lemma_flag_of_flags(self.0);
            lemma_entry_frame_bound(self.0);
        }
        if self.0 & FLAG_MASK & PRESENT == PRESENT {
            Some(Frame::containing_address(self.0 & ADDR_MASK))
        } else {
            None
        }
    }

    /// Point the entry at `frame` with the given flags.  The frame number
    /// must fit in the entry's address bits, and the flags may only use
    /// defined flag bits.
    pub fn set(&mut self, frame: Frame, flags: EntryFlags)
        requires
            frame@ < MAX_ENTRY_FRAME,
            flags & FLAG_MASK == flags,
        ensures
            final(self).value() == frame@ * PAGE_SIZE + flags,
            spec_entry_frame(final(self).value()) == frame@,
            spec_entry_flags(final(self).value()) == flags,
    {
        let start = frame.start_address();
        proof {
            lemma_set_encoding(frame@, flags);
        }
        self.0 = start | flags;
    }
}

/// Law: writing an entry for an in-range frame and then reading it back
/// reproduces exactly the frame and the flags that were written.
pub proof fn lemma_entry_round_trip(frame: Frame, flags: EntryFlags)
    requires
        frame@ < MAX_ENTRY_FRAME,
        flags & FLAG_MASK == flags,
    ensures
        spec_entry_frame((frame@ * PAGE_SIZE + flags) as u64) == frame@,
        spec_entry_flags((frame@ * PAGE_SIZE + flags) as u64) == flags,
        spec_has_flags((frame@ * PAGE_SIZE + flags) as u64, PRESENT) == (flags & PRESENT == PRESENT),
{
    lemma_set_encoding(frame@, flags);
    lemma_present_of_sum(frame@, flags);
}

/// A frame number below `MAX_ENTRY_FRAME` and defined flag bits combine
/// into an entry value that decodes back to the same pair.
proof fn lemma_set_encoding(n: u64, flags: u64)
    requires
        n < MAX_ENTRY_FRAME,
        flags & FLAG_MASK == flags,
    ensures
        n * 4096 + flags <= u64::MAX,
        ((n * 4096) as u64 | flags) == n * 4096 + flags,
        ((n * 4096 + flags) as u64) & ADDR_MASK == n * 4096,
        ((n * 4096 + flags) as u64) & FLAG_MASK == flags,
        ((n * 4096) as u64) / 4096 == n,
{
    assert(n * 4096 + flags <= 0xffff_ffff_ffff_ffff
        && ((n * 4096) as u64 | flags) == (n * 4096 + flags) as u64
        && ((n * 4096 + flags) as u64) & 0x000f_ffff_ffff_f000 == (n * 4096) as u64
        && ((n * 4096 + flags) as u64) & 0x8000_0000_0000_01ff == flags
        && ((n * 4096) as u64) / 4096 == n
        && n * 4096 <= 0xffff_ffff_ffff_ffff) by (bit_vector)
        requires
            n < 0x100_0000_0000,
            flags & 0x8000_0000_0000_01ff == flags,
    ;
}

/// The PRESENT bit of an encoded entry is the PRESENT bit of its flags.
proof fn lemma_present_of_sum(n: u64, flags: u64)
    requires
        n < MAX_ENTRY_FRAME,
        flags & FLAG_MASK == flags,
    ensures
        ((n * 4096 + flags) as u64) & PRESENT == flags & PRESENT,
{
    assert(((n * 4096 + flags) as u64) & 0x1 == flags & 0x1) by (bit_vector)
        requires
            n < 0x100_0000_0000,
            flags & 0x8000_0000_0000_01ff == flags,
    ;
}

/// A flag bit of the masked flags equals the flag bit of the raw value.
proof fn lemma_flag_of_flags(e: u64)
    ensures
        (e & FLAG_MASK & PRESENT == PRESENT) == spec_has_flags(e, PRESENT),
{
    assert((e & 0x8000_0000_0000_01ff & 0x1 == 0x1) == (e & 0x1 == 0x1)) by (bit_vector);
}

/// Masked flags carry each flag bit of the raw value.
pub proof fn lemma_flag_bits(v: u64)
    ensures
        spec_has_flags(v, PRESENT) == (spec_entry_flags(v) & PRESENT == PRESENT),
        spec_has_flags(v, HUGE_PAGE) == (spec_entry_flags(v) & HUGE_PAGE == HUGE_PAGE),
{
    assert((v & 0x1 == 0x1) == (v & 0x8000_0000_0000_01ff & 0x1 == 0x1) && (v & 0x80 == 0x80) == (
    v & 0x8000_0000_0000_01ff & 0x80 == 0x80)) by (bit_vector);
}

/// Adding PRESENT to defined flag bits keeps them defined, sets PRESENT,
/// and leaves HUGE_PAGE as it was.
pub proof fn lemma_or_present(fl: u64)
    requires
        fl & FLAG_MASK == fl,
    ensures
        (fl | PRESENT) & FLAG_MASK == fl | PRESENT,
        (fl | PRESENT) & PRESENT == PRESENT,
        (fl | PRESENT) & HUGE_PAGE == fl & HUGE_PAGE,
{
    assert((fl | 0x1) & 0x8000_0000_0000_01ff == (fl | 0x1) && (fl | 0x1) & 0x1 == 0x1 && (fl
        | 0x1) & 0x80 == fl & 0x80) by (bit_vector)
        requires
            fl & 0x8000_0000_0000_01ff == fl,
    ;
}

/// The fixed bits interior table entries are written with.
pub proof fn lemma_present_writable()
    ensures
        (PRESENT | WRITABLE) & FLAG_MASK == PRESENT | WRITABLE,
        (PRESENT | WRITABLE) & PRESENT == PRESENT,
        (PRESENT | WRITABLE) & HUGE_PAGE == 0,
        PRESENT | WRITABLE == 3u64,
{
    assert((0x1u64 | 0x2) & 0x8000_0000_0000_01ff == (0x1u64 | 0x2) && (0x1u64 | 0x2) & 0x1 == 0x1
        && (0x1u64 | 0x2) & 0x80 == 0 && (0x1u64 | 0x2) == 3u64) by (bit_vector);
}

/// The address bits of an entry name a frame number below `MAX_ENTRY_FRAME`.
pub proof fn lemma_entry_frame_bound(e: u64)
    ensures
        e & ADDR_MASK == spec_entry_frame(e) * PAGE_SIZE,
        spec_entry_frame(e) < MAX_ENTRY_FRAME,
{
    assert((e & 0x000f_ffff_ffff_f000) % 4096 == 0
        && (e & 0x000f_ffff_ffff_f000) / 4096 < 0x100_0000_0000) by (bit_vector);
    assert((e & ADDR_MASK) / 4096 * 4096 == e & ADDR_MASK) by {
        let a = e & ADDR_MASK;
        assert(a % 4096 == 0);
        assert(a / 4096 * 4096 + a % 4096 == a) by (nonlinear_arith);
    }
}

} // verus!
