//! Rebuilding the kernel address space at boot: the temporary scratch
//! page, the inactive table under construction, the active-table handle,
//! and the remap procedure that identity-maps the kernel's ELF sections,
//! the text-output frame and the boot-information blob into a fresh
//! hierarchy before switching to it.
//!
//! The hardware edge — reading and writing the table-base register and
//! flushing the translation cache — stays outside this crate; `switch`
//! performs the bookkeeping half of that exchange.  The boot hierarchy the
//! machine starts on is taken to occupy frame 0 here, so the guard page
//! that retires it is page 0.

use vstd::prelude::*;

verus! {

use vstd::arithmetic::div_mod::lemma_div_is_ordered;
use crate::flags::EntryFlags;
use crate::flags::lemma_flag_bits;
use crate::flags::lemma_present_writable;
use crate::flags::PRESENT;
use crate::flags::WRITABLE;
use crate::flags::NO_EXECUTE;
use crate::flags::FLAG_MASK;
use crate::flags::HUGE_PAGE;
use crate::flags::MAX_ENTRY_FRAME;
use crate::frame::Frame;
use crate::frame::FrameAllocator;
use crate::frame::PAGE_SIZE;
use crate::frame::took_frames;
use crate::frame_alloc::TinyAllocator;
use crate::mapper::Mapper;
use crate::mapper::MapError;
use crate::mapper::identity_page;
use crate::page::Page;
use crate::page::LOW_HALF_END;
use crate::table::Table;
use crate::table::table_wf;
use crate::table::table_walk;
use crate::table::path_no_huge;
use crate::table::l1_entry;
use crate::table::no_huge_entries;
use crate::table::same_path_indices;
use crate::table::lemma_no_huge_path;
use crate::table::lemma_zeroed_table;
use crate::table::lemma_page_index_bounds;

/// The fixed scratch page used to edit frames of inactive hierarchies.
pub const TEMPORARY_PAGE_NUMBER: u64 = 0x123456789;

/// The frame of the legacy text-output buffer, identity-mapped so that
/// diagnostics stay visible across the switch.
pub const VGA_BUFFER_ADDRESS: u64 = 0xb8000;

/// One entry of the kernel's ELF section metadata, as the boot glue hands
/// it over: start address, size, whether the section occupies memory, and
/// its permission bits (0x1 readable, 0x2 writable, 0x4 executable).
#[derive(Debug, Clone, Copy, PartialEq, Eq, Structural)]
pub struct ElfSectionData {
    pub addr: u64,
    pub size: u64,
    pub allocated: bool,
    pub flags: u64,
}

/// What the boot glue reports: the kernel's section list and the address
/// range of the boot-information blob itself.
pub struct BootData {
    pub elf_sections: Vec<ElfSectionData>,
    pub start_address: u64,
    pub end_address: u64,
}

/// The entry flags a section's permission bits call for.
pub open spec fn spec_elf_flags(f: u64) -> u64 {
    (if f & 0x1 != 0 {
        PRESENT
    } else {
        0
    }) | (if f & 0x2 != 0 {
        WRITABLE
    } else {
        0
    }) | (if f & 0x4 == 0 {
        NO_EXECUTE
    } else {
        0
    })
}

/// Derive entry flags from a section's permission bits: readable sections
/// become present, writable ones writable, and only executable sections
/// escape NO_EXECUTE.
pub fn from_elf_section_flags(section: &ElfSectionData) -> (r: EntryFlags)
    ensures
        r == spec_elf_flags(section.flags),
        r & FLAG_MASK == r,
        r & HUGE_PAGE == 0,
{
    let f = section.flags;
    let is_present = f & 0x1 != 0;
    let is_writable = f & 0x2 != 0;
    let is_executable = f & 0x4 != 0;
    let flags: EntryFlags = (if is_present {
        PRESENT
    } else {
        0
    }) | (if is_writable {
        WRITABLE
    } else {
        0
    }) | (if !is_executable {
        NO_EXECUTE
    } else {
        0
    });
    proof {
        lemma_elf_flags_shape(f);
    }
    flags
}

/// Section flags only combine defined, non-huge entry bits.
proof fn lemma_elf_flags_shape(f: u64)
    ensures
        spec_elf_flags(f) & FLAG_MASK == spec_elf_flags(f),
        spec_elf_flags(f) & HUGE_PAGE == 0,
{
    let p: u64 = if f & 0x1 != 0 {
        0x1
    } else {
        0
    };
    let w: u64 = if f & 0x2 != 0 {
        0x2
    } else {
        0
    };
    let x: u64 = if f & 0x4 == 0 {
        0x8000_0000_0000_0000
    } else {
        0
    };
    assert((p <= 0x1 && w <= 0x2 && (x == 0 || x == 0x8000_0000_0000_0000)) ==> ((p | w | x)
        & 0x8000_0000_0000_01ff == (p | w | x) && (p | w | x) & 0x80 == 0)) by (bit_vector);
}

/// A single reserved virtual page plus its own three-frame pool: a scratch
/// window for editing a physical frame that is not otherwise mapped.
pub struct TemporaryPage {
    pub page: Page,
    pub allocator: TinyAllocator,
}

impl TemporaryPage {
    pub open spec fn wf(self) -> bool {
        &&& self.allocator.wf()
        &&& self.page@ < LOW_HALF_END / PAGE_SIZE
        &&& self.page.spec_p4_index() != 511
    }

    /// Reserve `page` as the scratch window, drawing three frames from the
    /// given allocator up front.
    pub fn new<A: FrameAllocator>(page: Page, allocator: &mut A) -> (r: TemporaryPage)
        requires
            old(allocator).alloc_pre(),
            page@ < LOW_HALF_END / PAGE_SIZE,
            page.spec_p4_index() != 511,
        ensures
            r.wf(),
            r.page == page,
            final(allocator).alloc_pre(),
    {
        TemporaryPage { page, allocator: TinyAllocator::new(allocator) }
    }

    /// Map the scratch page to `frame`, writable, using the internal pool
    /// for any table frames; returns the window's virtual address.  The
    /// scratch page must not already be mapped.
    pub fn map(&mut self, frame: Frame, active_table: &mut ActivePageTable) -> (r: Result<
        u64,
        MapError,
    >)
        requires
            old(self).wf(),
            table_wf(old(active_table).mapper.p4, 4),
            table_walk(old(active_table).mapper.p4, 4, old(self).page) is None,
            path_no_huge(old(active_table).mapper.p4, 4, old(self).page),
            frame@ < MAX_ENTRY_FRAME,
        ensures
            final(self).wf(),
            final(self).page == old(self).page,
            table_wf(final(active_table).mapper.p4, 4),
            final(active_table).p4_frame == old(active_table).p4_frame,
            no_huge_entries(old(active_table).mapper.p4, 4) ==> no_huge_entries(
                final(active_table).mapper.p4,
                4,
            ),
            forall|q: Page|
                !same_path_indices(q, old(self).page, 4) ==> table_walk(
                    final(active_table).mapper.p4,
                    4,
                    q,
                ) == table_walk(old(active_table).mapper.p4, 4, q),
            path_no_huge(final(active_table).mapper.p4, 4, old(self).page),
            l1_entry(old(active_table).mapper.p4, 4, old(self).page) is Some ==> r is Ok,
            took_frames(old(self).allocator, final(self).allocator, 3),
            match r {
                Ok(addr) => addr == old(self).page@ * PAGE_SIZE && table_walk(
                    final(active_table).mapper.p4,
                    4,
                    old(self).page,
                ) == Some(frame@) && l1_entry(
                    final(active_table).mapper.p4,
                    4,
                    old(self).page,
                ) == Some((frame@ * PAGE_SIZE + (WRITABLE | PRESENT)) as u64),
                Err(e) => e == MapError::FrameExhausted && table_walk(
                    final(active_table).mapper.p4,
                    4,
                    old(self).page,
                ) is None,
            },
    {
        proof {
            assert(WRITABLE & FLAG_MASK == WRITABLE) by (bit_vector);
            lemma_low_page_address(self.page@);
        }
        let page = self.page;
        match active_table.mapper.map_to(page, frame, WRITABLE, &mut self.allocator) {
            Ok(()) => Ok(page.start_address()),
            Err(e) => Err(e),
        }
    }

    /// Release the scratch window; unmapping an unmapped window is a safe
    /// no-op.
    pub fn unmap(&mut self, active_table: &mut ActivePageTable)
        requires
            old(self).wf(),
            table_wf(old(active_table).mapper.p4, 4),
            table_walk(old(active_table).mapper.p4, 4, old(self).page) is Some ==> path_no_huge(
                old(active_table).mapper.p4,
                4,
                old(self).page,
            ),
        ensures
            final(self).wf(),
            final(self).page == old(self).page,
            table_wf(final(active_table).mapper.p4, 4),
            final(active_table).p4_frame == old(active_table).p4_frame,
            table_walk(final(active_table).mapper.p4, 4, old(self).page) is None,
            no_huge_entries(old(active_table).mapper.p4, 4) ==> no_huge_entries(
                final(active_table).mapper.p4,
                4,
            ),
            forall|q: Page|
                !same_path_indices(q, old(self).page, 4) ==> table_walk(
                    final(active_table).mapper.p4,
                    4,
                    q,
                ) == table_walk(old(active_table).mapper.p4, 4, q),
    {
        let page = self.page;
        active_table.mapper.unmap(page, &mut self.allocator);
    }
}

/// A level-4 table that is built but not installed; it owns the frame it
/// will occupy and, in this model, the table data itself.
pub struct InactivePageTable {
    pub p4_frame: Frame,
    pub table: Table,
}

impl InactivePageTable {
    /// Build a fresh inactive hierarchy in `frame`: zero it through the
    /// scratch window and install the recursive entry in slot 511.
    pub fn new(
        frame: Frame,
        active_table: &mut ActivePageTable,
        temporary_page: &mut TemporaryPage,
    ) -> (r: Result<InactivePageTable, MapError>)
        requires
            old(temporary_page).wf(),
            table_wf(old(active_table).mapper.p4, 4),
            table_walk(old(active_table).mapper.p4, 4, old(temporary_page).page) is None,
            path_no_huge(old(active_table).mapper.p4, 4, old(temporary_page).page),
            frame@ < MAX_ENTRY_FRAME,
        ensures
            final(temporary_page).wf(),
            final(temporary_page).page == old(temporary_page).page,
            table_wf(final(active_table).mapper.p4, 4),
            final(active_table).p4_frame == old(active_table).p4_frame,
            table_walk(final(active_table).mapper.p4, 4, old(temporary_page).page) is None,
            no_huge_entries(old(active_table).mapper.p4, 4) ==> no_huge_entries(
                final(active_table).mapper.p4,
                4,
            ),
            forall|q: Page|
                !same_path_indices(q, old(temporary_page).page, 4) ==> table_walk(
                    final(active_table).mapper.p4,
                    4,
                    q,
                ) == table_walk(old(active_table).mapper.p4, 4, q),
            match r {
                Ok(t) => t.p4_frame == frame && table_wf(t.table, 4) && no_huge_entries(t.table, 4)
                    && (forall|q: Page| table_walk(t.table, 4, q) == None::<u64>) && t.table.entries@[511].value()
                    == frame@ * PAGE_SIZE + (PRESENT | WRITABLE),
                Err(e) => e == MapError::FrameExhausted,
            },
    {
        let mapped = temporary_page.map(frame.clone(), active_table);
        let mut table = Table::new_zeroed();
        proof {
            lemma_zeroed_table(table, 4);
            lemma_present_writable();
        }
        let ghost zeroed = table;
        let entry = &mut table.entries[511];
        entry.set(frame.clone(), PRESENT | WRITABLE);
        proof {
            let v = table.entries@[511].value();
            lemma_flag_bits(v);
            assert(table.entries@ == zeroed.entries@.update(511, table.entries@[511]));
            assert(table_wf(table, 4));
            assert(no_huge_entries(table, 4));
            assert forall|q: Page| table_walk(table, 4, q) == None::<u64> by {
                lemma_page_index_bounds(q, 4);
            }
        }
        temporary_page.unmap(active_table);
        match mapped {
            Ok(_) => Ok(InactivePageTable { p4_frame: frame, table }),
            Err(e) => Err(e),
        }
    }
}

/// The handle on the hierarchy the machine is running on.  In this model
/// the boot hierarchy starts empty at frame 0; the hardware edge installs
/// a new hierarchy by writing the table-base register with the frame this
/// handle names.
pub struct ActivePageTable {
    pub mapper: Mapper,
    pub p4_frame: Frame,
}

impl ActivePageTable {
    pub open spec fn wf(self) -> bool {
        table_wf(self.mapper.p4, 4)
    }

    /// The view over the boot hierarchy: empty, at frame 0.
    pub fn new() -> (r: ActivePageTable)
        ensures
            r.wf(),
            r.p4_frame@ == 0,
            no_huge_entries(r.mapper.p4, 4),
            forall|page: Page| table_walk(r.mapper.p4, 4, page) == None::<u64>,
    {
        ActivePageTable { mapper: Mapper::new(), p4_frame: Frame { number: 0 } }
    }

    /// Install `new_table` as the running hierarchy and hand back the one
    /// it replaces as a new inactive table.
    pub fn switch(&mut self, new_table: InactivePageTable) -> (r: InactivePageTable)
        ensures
            final(self).mapper.p4 == new_table.table,
            final(self).p4_frame == new_table.p4_frame,
            r.p4_frame == old(self).p4_frame,
            r.table == old(self).mapper.p4,
    {
        let InactivePageTable { p4_frame, table } = new_table;
        let mut table = table;
        core::mem::swap(&mut self.mapper.p4, &mut table);
        let old_frame = Frame { number: self.p4_frame.number() };
        self.p4_frame = p4_frame;
        InactivePageTable { p4_frame: old_frame, table }
    }
}

/// Pages in the low half of the address space have in-range addresses.
proof fn lemma_low_page_address(n: u64)
    requires
        n < LOW_HALF_END / PAGE_SIZE,
    ensures
        n * PAGE_SIZE <= u64::MAX,
{
}

/// Two low-half pages that select the same slots on all four levels are
/// the same page: the four indices cover every bit of a low-half page
/// number.
pub proof fn lemma_low_pages_same_path(n: u64, m: u64)
    requires
        n < LOW_HALF_END / PAGE_SIZE,
        m < LOW_HALF_END / PAGE_SIZE,
        same_path_indices((Page { number: n }), (Page { number: m }), 4),
    ensures
        n == m,
{
    let q = Page { number: n };
    let p = Page { number: m };
    assert(same_path_indices(q, p, 3));
    assert(same_path_indices(q, p, 2));
    assert(same_path_indices(q, p, 1));
    assert(same_path_indices(q, p, 0));
    assert((n >> 27) & 0o777 == (m >> 27) & 0o777);
    assert((n >> 18) & 0o777 == (m >> 18) & 0o777);
    assert((n >> 9) & 0o777 == (m >> 9) & 0o777);
    assert(n & 0o777 == m & 0o777);
    assert(n == m) by (bit_vector)
        requires
            (n >> 27) & 0o777 == (m >> 27) & 0o777,
            (n >> 18) & 0o777 == (m >> 18) & 0o777,
            (n >> 9) & 0o777 == (m >> 9) & 0o777,
            n & 0o777 == m & 0o777,
            n < 0x8_0000_0000,
            m < 0x8_0000_0000,
    ;
}

/// Identity-map frame number `n` unless its page is taken, and leave
/// every other low-half page's translation and level-1 entry exactly as
/// they were.  The overlap error comes back exactly when the page was
/// already mapped; on success the level-1 entry carries the given flags
/// plus PRESENT.
fn identity_map_checked<A: FrameAllocator>(
    mapper: &mut Mapper,
    n: u64,
    flags: EntryFlags,
    allocator: &mut A,
) -> (r: Result<(), MapError>)
    requires
        old(mapper).wf(),
        no_huge_entries(old(mapper).p4, 4),
        n < LOW_HALF_END / PAGE_SIZE,
        flags & FLAG_MASK == flags,
        old(allocator).alloc_pre(),
    ensures
        final(mapper).wf(),
        no_huge_entries(final(mapper).p4, 4),
        final(allocator).alloc_pre(),
        forall|m: u64|
            m < LOW_HALF_END / PAGE_SIZE && m != n ==> table_walk(
                final(mapper).p4,
                4,
                (Page { number: m }),
            ) == table_walk(old(mapper).p4, 4, (Page { number: m })),
        forall|m: u64|
            m < LOW_HALF_END / PAGE_SIZE && m != n && l1_entry(
                old(mapper).p4,
                4,
                (Page { number: m }),
            ) is Some ==> l1_entry(final(mapper).p4, 4, (Page { number: m })) == l1_entry(
                old(mapper).p4,
                4,
                (Page { number: m }),
            ),
        r is Ok ==> table_walk(final(mapper).p4, 4, (Page { number: n })) == Some(n) && l1_entry(
            final(mapper).p4,
            4,
            (Page { number: n }),
        ) == Some((n * PAGE_SIZE + (flags | PRESENT)) as u64),
        r == Result::<(), MapError>::Err(MapError::AlreadyMapped) <==> table_walk(
            old(mapper).p4,
            4,
            (Page { number: n }),
        ) is Some,
        r is Err && r != Result::<(), MapError>::Err(MapError::AlreadyMapped) ==> r
            == Result::<(), MapError>::Err(MapError::FrameExhausted),
    {
    let frame = Frame { number: n };
    let ghost page = identity_page(frame);
    if walk_is_some(mapper, n) {
        return Err(MapError::AlreadyMapped);
    }
    proof {
        lemma_no_huge_path(mapper.p4, 4, page);
        lemma_low_page_address(n);
    }
    let res = mapper.identity_map(frame, flags, allocator);
    proof {
        assert forall|m: u64|
            m < LOW_HALF_END / PAGE_SIZE && m != n implies table_walk(
            final(mapper).p4,
            4,
            (Page { number: m }),
        ) == table_walk(old(mapper).p4, 4, (Page { number: m })) && (l1_entry(
            old(mapper).p4,
            4,
            (Page { number: m }),
        ) is Some ==> l1_entry(final(mapper).p4, 4, (Page { number: m })) == l1_entry(
            old(mapper).p4,
            4,
            (Page { number: m }),
        )) by {
            if same_path_indices((Page { number: m }), page, 4) {
                lemma_low_pages_same_path(m, n);
            }
        }
    }
    res
}

/// Whether frame number `n`'s identity page currently translates.
fn walk_is_some(mapper: &Mapper, n: u64) -> (r: bool)
    requires
        mapper.wf(),
    ensures
        r == table_walk(mapper.p4, 4, (Page { number: n })) is Some,
{
    let page = Page { number: n };
    match mapper.translate_page(page) {
        Some(_) => true,
        None => false,
    }
}

/// A section the remap procedure maps: occupying memory and page-aligned.
pub open spec fn section_usable(s: ElfSectionData) -> bool {
    s.allocated && s.addr % PAGE_SIZE == 0
}

/// First frame number of a section.
pub open spec fn section_first_frame(s: ElfSectionData) -> int {
    s.addr as int / PAGE_SIZE as int
}

/// Last frame number of a section.
pub open spec fn section_last_frame(s: ElfSectionData) -> int {
    (s.addr + s.size - 1) / PAGE_SIZE as int
}

/// Boot data the remap procedure can work with: every section is
/// non-empty, above the first page and within the low half, as is the
/// boot-information blob itself.
pub open spec fn boot_data_wf(b: BootData) -> bool {
    &&& (forall|k: int|
        0 <= k < b.elf_sections@.len() ==> {
            let s = #[trigger] b.elf_sections@[k];
            &&& s.size >= 1
            &&& s.addr >= PAGE_SIZE
            &&& s.addr + s.size <= LOW_HALF_END
        })
    &&& PAGE_SIZE <= b.start_address
    &&& b.start_address < b.end_address
    &&& b.end_address <= LOW_HALF_END
}

/// The frame of the text-output buffer.
pub open spec fn vga_frame() -> int {
    VGA_BUFFER_ADDRESS as int / PAGE_SIZE as int
}

/// First frame of the boot-information blob.
pub open spec fn mb_first_frame(b: BootData) -> int {
    b.start_address as int / PAGE_SIZE as int
}

/// Last frame of the boot-information blob.
pub open spec fn mb_last_frame(b: BootData) -> int {
    (b.end_address - 1) as int / PAGE_SIZE as int
}

/// The ranges the rebuild maps never share a frame: usable sections are
/// pairwise disjoint, and none of them holds the text-output frame or
/// touches the blob, which avoids the text-output frame too.  A boot
/// image violating this would double-map, which is an invariant
/// violation.
pub open spec fn boot_ranges_disjoint(b: BootData) -> bool {
    &&& (forall|k1: int, k2: int|
        #![trigger b.elf_sections@[k1], b.elf_sections@[k2]]
        0 <= k1 < k2 < b.elf_sections@.len() && section_usable(b.elf_sections@[k1])
            && section_usable(b.elf_sections@[k2]) ==> section_last_frame(b.elf_sections@[k1])
            < section_first_frame(b.elf_sections@[k2]) || section_last_frame(b.elf_sections@[k2])
            < section_first_frame(b.elf_sections@[k1]))
    &&& (forall|k: int|
        0 <= k < b.elf_sections@.len() && section_usable(#[trigger] b.elf_sections@[k])
            ==> !(section_first_frame(b.elf_sections@[k]) <= vga_frame() <= section_last_frame(
            b.elf_sections@[k],
        )))
    &&& (forall|k: int|
        0 <= k < b.elf_sections@.len() && section_usable(#[trigger] b.elf_sections@[k])
            ==> section_last_frame(b.elf_sections@[k]) < mb_first_frame(b) || mb_last_frame(b)
            < section_first_frame(b.elf_sections@[k]))
    &&& !(mb_first_frame(b) <= vga_frame() <= mb_last_frame(b))
}

/// Whether, under `t`, every frame of every usable section of `b` up to
/// index `upto` is identity-mapped, its level-1 entry carrying exactly
/// the flags the section's permission bits call for, plus PRESENT.
pub open spec fn sections_identity_mapped(t: Table, b: BootData, upto: int) -> bool {
    forall|k: int, fi: int|
        #![trigger b.elf_sections@[k], table_walk(t, 4, (Page { number: fi as u64 }))]
        0 <= k < upto && section_usable(b.elf_sections@[k]) && section_first_frame(
            b.elf_sections@[k],
        ) <= fi <= section_last_frame(b.elf_sections@[k]) ==> table_walk(
            t,
            4,
            (Page { number: fi as u64 }),
        ) == Some(fi as u64) && l1_entry(t, 4, (Page { number: fi as u64 })) == Some(
            (fi * PAGE_SIZE + (spec_elf_flags(b.elf_sections@[k].flags) | PRESENT)) as u64,
        )
}

/// Whether, under `t`, every frame of every usable section from index
/// `from_k` on still translates to nothing.
pub open spec fn later_sections_unmapped(t: Table, b: BootData, from_k: int) -> bool {
    forall|k: int, fi: int|
        #![trigger b.elf_sections@[k], table_walk(t, 4, (Page { number: fi as u64 }))]
        from_k <= k < b.elf_sections@.len() && section_usable(b.elf_sections@[k])
            && section_first_frame(b.elf_sections@[k]) <= fi <= section_last_frame(
            b.elf_sections@[k],
        ) ==> table_walk(t, 4, (Page { number: fi as u64 })) is None
}

/// One identity-mapping step at frame `n` carries both invariants over:
/// mapped prefixes stay mapped with their entries, unmapped suffixes stay
/// unmapped — provided `n` is no frame of theirs.
proof fn lemma_step_carries_sections(
    before: Table,
    after: Table,
    b: BootData,
    upto: int,
    from_k: int,
    n: u64,
)
    requires
        boot_data_wf(b),
        upto <= b.elf_sections@.len(),
        0 <= from_k,
        n < LOW_HALF_END / PAGE_SIZE,
        sections_identity_mapped(before, b, upto),
        later_sections_unmapped(before, b, from_k),
        forall|m: u64|
            m < LOW_HALF_END / PAGE_SIZE && m != n ==> table_walk(after, 4, (Page { number: m }))
                == table_walk(before, 4, (Page { number: m })),
        forall|m: u64|
            m < LOW_HALF_END / PAGE_SIZE && m != n && l1_entry(
                before,
                4,
                (Page { number: m }),
            ) is Some ==> l1_entry(after, 4, (Page { number: m })) == l1_entry(
                before,
                4,
                (Page { number: m }),
            ),
        forall|k: int|
            0 <= k < upto && section_usable(#[trigger] b.elf_sections@[k]) ==> !(
            section_first_frame(b.elf_sections@[k]) <= n <= section_last_frame(
                b.elf_sections@[k],
            )),
        forall|k: int|
            from_k <= k < b.elf_sections@.len() && section_usable(#[trigger] b.elf_sections@[k])
                ==> !(section_first_frame(b.elf_sections@[k]) <= n <= section_last_frame(
                b.elf_sections@[k],
            )),
    ensures
        sections_identity_mapped(after, b, upto),
        later_sections_unmapped(after, b, from_k),
{
    assert forall|k: int, fi: int|
        #![trigger b.elf_sections@[k], table_walk(after, 4, (Page { number: fi as u64 }))]
        0 <= k < upto && section_usable(b.elf_sections@[k]) && section_first_frame(
            b.elf_sections@[k],
        ) <= fi <= section_last_frame(b.elf_sections@[k]) implies table_walk(
        after,
        4,
        (Page { number: fi as u64 }),
    ) == Some(fi as u64) && l1_entry(after, 4, (Page { number: fi as u64 })) == Some(
        (fi * PAGE_SIZE + (spec_elf_flags(b.elf_sections@[k].flags) | PRESENT)) as u64,
    ) by {
        lemma_section_frame_bounds(b.elf_sections@[k]);
    }
    assert forall|k: int, fi: int|
        #![trigger b.elf_sections@[k], table_walk(after, 4, (Page { number: fi as u64 }))]
        from_k <= k < b.elf_sections@.len() && section_usable(b.elf_sections@[k])
            && section_first_frame(b.elf_sections@[k]) <= fi <= section_last_frame(
            b.elf_sections@[k],
        ) implies table_walk(after, 4, (Page { number: fi as u64 })) is None by {
        lemma_section_frame_bounds(b.elf_sections@[k]);
    }
}

/// A frame of one usable section belongs to no other usable section.
proof fn lemma_sections_frames_distinct(b: BootData, k_n: int, n: int)
    requires
        boot_ranges_disjoint(b),
        0 <= k_n < b.elf_sections@.len(),
        section_usable(b.elf_sections@[k_n]),
        section_first_frame(b.elf_sections@[k_n]) <= n <= section_last_frame(
            b.elf_sections@[k_n],
        ),
    ensures
        forall|k: int|
            0 <= k < b.elf_sections@.len() && k != k_n && section_usable(
                #[trigger] b.elf_sections@[k],
            ) ==> !(section_first_frame(b.elf_sections@[k]) <= n <= section_last_frame(
                b.elf_sections@[k],
            )),
        !(mb_first_frame(b) <= n <= mb_last_frame(b)),
        n != vga_frame(),
{
    assert forall|k: int|
        0 <= k < b.elf_sections@.len() && k != k_n && section_usable(#[trigger] b.elf_sections@[k])
            implies !(section_first_frame(b.elf_sections@[k]) <= n <= section_last_frame(
            b.elf_sections@[k],
        )) by {
        if k < k_n {
            assert(b.elf_sections@[k] == b.elf_sections@[k] && b.elf_sections@[k_n]
                == b.elf_sections@[k_n]);
        }
    }
}

/// Rebuild the kernel address space: allocate a fresh level-4 table,
/// identity-map every usable kernel section with flags drawn from its
/// permission bits, the text-output frame (writable) and the whole
/// boot-information blob (present, read-only), switch to the new
/// hierarchy, and retire the old one's frame as an unmapped guard page.
///
/// On success every usable section frame, the text-output frame and the
/// blob translate to themselves and their level-1 entries carry exactly
/// the named flags; the guard page translates to nothing.  The only
/// failure is frame exhaustion, which the kernel treats as fatal.
pub fn remap_kernel<A: FrameAllocator>(allocator: &mut A, boot_info: &BootData) -> (r: Result<
    ActivePageTable,
    MapError,
>)
    requires
        boot_data_wf(*boot_info),
        boot_ranges_disjoint(*boot_info),
        old(allocator).alloc_pre(),
    ensures
        final(allocator).alloc_pre(),
        r is Err ==> r == Result::<ActivePageTable, MapError>::Err(MapError::FrameExhausted),
        match r {
            Ok(at) => {
                &&& at.wf()
                &&& no_huge_entries(at.mapper.p4, 4)
                &&& sections_identity_mapped(
                    at.mapper.p4,
                    *boot_info,
                    boot_info.elf_sections@.len() as int,
                )
                &&& table_walk(
                    at.mapper.p4,
                    4,
                    (Page { number: VGA_BUFFER_ADDRESS / PAGE_SIZE }),
                ) == Some(VGA_BUFFER_ADDRESS / PAGE_SIZE)
                &&& l1_entry(at.mapper.p4, 4, (Page { number: VGA_BUFFER_ADDRESS / PAGE_SIZE }))
                    == Some(
                    ((VGA_BUFFER_ADDRESS / PAGE_SIZE) * PAGE_SIZE + (WRITABLE | PRESENT)) as u64,
                )
                &&& forall|fi: u64|
                    boot_info.start_address / PAGE_SIZE <= fi && fi as int <= mb_last_frame(
                        *boot_info,
                    ) ==> table_walk(at.mapper.p4, 4, (Page { number: fi })) == Some(fi)
                        && l1_entry(at.mapper.p4, 4, (Page { number: fi })) == Some(
                        (fi * PAGE_SIZE + PRESENT) as u64,
                    )
                &&& table_walk(at.mapper.p4, 4, (Page { number: 0 })) == None::<u64>
            },
            Err(_) => true,
        },
{
    proof {
        assert((0x123456789u64 >> 27) & 0o777 != 511 && 0x123456789u64 < 0x8_0000_0000) by (bit_vector);
        assert(PRESENT & FLAG_MASK == PRESENT && WRITABLE & FLAG_MASK == WRITABLE && (PRESENT
            | PRESENT) == PRESENT) by (bit_vector);
        assert(VGA_BUFFER_ADDRESS / PAGE_SIZE < LOW_HALF_END / PAGE_SIZE && VGA_BUFFER_ADDRESS
            / PAGE_SIZE != 0);
    }
    let mut temporary_page = TemporaryPage::new(Page { number: TEMPORARY_PAGE_NUMBER }, allocator);
    let mut active_table = ActivePageTable::new();
    let frame = match allocator.allocate_frame() {
        Some(f) => f,
        None => {
            return Err(MapError::FrameExhausted);
        },
    };
    proof {
        lemma_no_huge_path(active_table.mapper.p4, 4, temporary_page.page);
    }
    let new_table = match InactivePageTable::new(frame, &mut active_table, &mut temporary_page) {
        Ok(t) => t,
        Err(e) => {
            return Err(e);
        },
    };
    let mut new_table = new_table;

    // Edit the new hierarchy through an ordinary mapper.  The hardware
    // does the same through the recursive-slot swap; here the table is
    // owned and edited in place.
    let mut scratch = Table::new_zeroed();
    core::mem::swap(&mut new_table.table, &mut scratch);
    let mut mapper = Mapper { p4: scratch };

    let ghost vga_n: u64 = VGA_BUFFER_ADDRESS / PAGE_SIZE;
    let section_count = boot_info.elf_sections.len();
    let mut si: usize = 0;
    while si < section_count
        invariant
            section_count == boot_info.elf_sections@.len(),
            boot_data_wf(*boot_info),
            boot_ranges_disjoint(*boot_info),
            vga_n == VGA_BUFFER_ADDRESS / PAGE_SIZE,
            si <= section_count,
            mapper.wf(),
            no_huge_entries(mapper.p4, 4),
            allocator.alloc_pre(),
            sections_identity_mapped(mapper.p4, *boot_info, si as int),
            later_sections_unmapped(mapper.p4, *boot_info, si as int),
            table_walk(mapper.p4, 4, (Page { number: vga_n })) is None,
            forall|g: u64|
                mb_first_frame(*boot_info) <= g && g as int <= mb_last_frame(*boot_info)
                    ==> table_walk(mapper.p4, 4, (Page { number: g })) is None,
        decreases section_count - si,
    {
        let s = boot_info.elf_sections[si];
        if s.allocated && s.addr % PAGE_SIZE == 0 {
            let flags = from_elf_section_flags(&s);
            let start = s.addr / PAGE_SIZE;
            let last = (s.addr + s.size - 1) / PAGE_SIZE;
            proof {
                lemma_section_frame_bounds(s);
            }
            let mut fi = start;
            while fi <= last
                invariant
                    section_count == boot_info.elf_sections@.len(),
                    boot_data_wf(*boot_info),
                    boot_ranges_disjoint(*boot_info),
                    vga_n == VGA_BUFFER_ADDRESS / PAGE_SIZE,
                    si < section_count,
                    s == boot_info.elf_sections@[si as int],
                    section_usable(s),
                    start == section_first_frame(s),
                    last == section_last_frame(s),
                    start <= fi <= last + 1,
                    last < LOW_HALF_END / PAGE_SIZE,
                    flags == spec_elf_flags(s.flags),
                    flags & FLAG_MASK == flags,
                    mapper.wf(),
                    no_huge_entries(mapper.p4, 4),
                    allocator.alloc_pre(),
                    sections_identity_mapped(mapper.p4, *boot_info, si as int),
                    later_sections_unmapped(mapper.p4, *boot_info, si as int + 1),
                    table_walk(mapper.p4, 4, (Page { number: vga_n })) is None,
                    forall|g: u64|
                        mb_first_frame(*boot_info) <= g && g as int <= mb_last_frame(*boot_info)
                            ==> table_walk(mapper.p4, 4, (Page { number: g })) is None,
                    forall|g: int|
                        #![trigger table_walk(mapper.p4, 4, (Page { number: g as u64 }))]
                        start <= g < fi ==> table_walk(mapper.p4, 4, (Page { number: g as u64 }))
                            == Some(g as u64) && l1_entry(
                            mapper.p4,
                            4,
                            (Page { number: g as u64 }),
                        ) == Some((g * PAGE_SIZE + (spec_elf_flags(s.flags) | PRESENT)) as u64),
                    forall|g: int|
                        #![trigger table_walk(mapper.p4, 4, (Page { number: g as u64 }))]
                        fi <= g <= last ==> table_walk(
                            mapper.p4,
                            4,
                            (Page { number: g as u64 }),
                        ) is None,
                decreases last + 1 - fi,
            {
                let ghost before = mapper.p4;
                proof {
                    assert(table_walk(before, 4, (Page { number: (fi as int) as u64 })) is None);
                }
                match identity_map_checked(&mut mapper, fi, flags, allocator) {
                    Ok(()) => {},
                    Err(e) => {
                        proof {
                            assert(e != MapError::AlreadyMapped);
                        }
                        return Err(e);
                    },
                }
                proof {
                    lemma_sections_frames_distinct(*boot_info, si as int, fi as int);
                    lemma_step_carries_sections(
                        before,
                        mapper.p4,
                        *boot_info,
                        si as int,
                        si as int + 1,
                        fi,
                    );
                }
                fi = fi + 1;
            }
            proof {
                lemma_sections_mapped_extend(mapper.p4, *boot_info, si as int);
            }
        } else {
            proof {
                lemma_sections_mapped_extend(mapper.p4, *boot_info, si as int);
            }
        }
        si = si + 1;
    }

    let ghost before_vga = mapper.p4;
    let vga_frame_number = VGA_BUFFER_ADDRESS / PAGE_SIZE;
    match identity_map_checked(&mut mapper, vga_frame_number, WRITABLE, allocator) {
        Ok(()) => {},
        Err(e) => {
            proof {
                assert(e != MapError::AlreadyMapped);
            }
            return Err(e);
        },
    }
    proof {
        lemma_step_carries_sections(
            before_vga,
            mapper.p4,
            *boot_info,
            section_count as int,
            section_count as int,
            vga_frame_number,
        );
    }

    let mb_start = boot_info.start_address / PAGE_SIZE;
    let mb_last = (boot_info.end_address - 1) / PAGE_SIZE;
    proof {
        lemma_div_bound((boot_info.end_address - 1) as u64);
    }
    let mut fi = mb_start;
    while fi <= mb_last
        invariant
            section_count == boot_info.elf_sections@.len(),
            boot_data_wf(*boot_info),
            boot_ranges_disjoint(*boot_info),
            vga_n == VGA_BUFFER_ADDRESS / PAGE_SIZE,
            mb_start == boot_info.start_address / PAGE_SIZE,
            mb_last as int == mb_last_frame(*boot_info),
            mb_start <= fi <= mb_last + 1,
            mb_last < LOW_HALF_END / PAGE_SIZE,
            mapper.wf(),
            no_huge_entries(mapper.p4, 4),
            allocator.alloc_pre(),
            sections_identity_mapped(mapper.p4, *boot_info, section_count as int),
            table_walk(mapper.p4, 4, (Page { number: vga_n })) == Some(vga_n) && l1_entry(
                mapper.p4,
                4,
                (Page { number: vga_n }),
            ) == Some((vga_n * PAGE_SIZE + (WRITABLE | PRESENT)) as u64),
            forall|g: u64|
                #![trigger table_walk(mapper.p4, 4, (Page { number: g }))]
                mb_start <= g < fi ==> table_walk(mapper.p4, 4, (Page { number: g })) == Some(g)
                    && l1_entry(mapper.p4, 4, (Page { number: g })) == Some(
                    (g * PAGE_SIZE + PRESENT) as u64,
                ),
            forall|g: u64|
                #![trigger table_walk(mapper.p4, 4, (Page { number: g }))]
                fi <= g && g as int <= mb_last_frame(*boot_info) ==> table_walk(
                    mapper.p4,
                    4,
                    (Page { number: g }),
                ) is None,
        decreases mb_last + 1 - fi,
    {
        proof {
            assert(PRESENT & FLAG_MASK == PRESENT && (PRESENT | PRESENT) == PRESENT) by (bit_vector);
        }
        let ghost before = mapper.p4;
        proof {
            assert(table_walk(before, 4, (Page { number: fi })) is None);
        }
        match identity_map_checked(&mut mapper, fi, PRESENT, allocator) {
            Ok(()) => {},
            Err(e) => {
                proof {
                    assert(e != MapError::AlreadyMapped);
                }
                return Err(e);
            },
        }
        proof {
            assert forall|k: int|
                0 <= k < section_count && section_usable(#[trigger] boot_info.elf_sections@[k])
                    implies !(section_first_frame(boot_info.elf_sections@[k]) <= fi as int
                <= section_last_frame(boot_info.elf_sections@[k])) by {}
            lemma_step_carries_sections(
                before,
                mapper.p4,
                *boot_info,
                section_count as int,
                section_count as int,
                fi,
            );
        }
        fi = fi + 1;
    }

    let ghost mapped_table = mapper.p4;
    proof {
        assert(forall|g: u64|
            #![trigger table_walk(mapped_table, 4, (Page { number: g }))]
            mb_start <= g && g as int <= mb_last_frame(*boot_info) ==> table_walk(
                mapped_table,
                4,
                (Page { number: g }),
            ) == Some(g) && l1_entry(mapped_table, 4, (Page { number: g })) == Some(
                (g * PAGE_SIZE + PRESENT) as u64,
            ));
    }
    core::mem::swap(&mut new_table.table, &mut mapper.p4);
    let old_table = active_table.switch(new_table);
    let ghost before_guard = active_table.mapper.p4;
    proof {
        assert(before_guard == mapped_table);
    }
    let old_p4_page = Page::containing_address(old_table.p4_frame.start_address());
    proof {
        lemma_no_huge_path(active_table.mapper.p4, 4, old_p4_page);
    }
    active_table.mapper.unmap(old_p4_page, allocator);
    proof {
        assert(old_p4_page == (Page { number: 0u64 }));
        assert forall|m: u64|
            m < LOW_HALF_END / PAGE_SIZE && m != 0 implies table_walk(
            active_table.mapper.p4,
            4,
            (Page { number: m }),
        ) == table_walk(before_guard, 4, (Page { number: m })) && (l1_entry(
            before_guard,
            4,
            (Page { number: m }),
        ) is Some ==> l1_entry(active_table.mapper.p4, 4, (Page { number: m })) == l1_entry(
            before_guard,
            4,
            (Page { number: m }),
        )) by {
            if same_path_indices((Page { number: m }), old_p4_page, 4) {
                lemma_low_pages_same_path(m, 0);
            }
        }
        assert forall|k: int|
            0 <= k < section_count && section_usable(#[trigger] boot_info.elf_sections@[k])
                implies !(section_first_frame(boot_info.elf_sections@[k]) <= 0
            <= section_last_frame(boot_info.elf_sections@[k])) by {
            lemma_section_frame_bounds(boot_info.elf_sections@[k]);
        }
        lemma_step_carries_sections(
            before_guard,
            active_table.mapper.p4,
            *boot_info,
            section_count as int,
            section_count as int,
            0,
        );
        lemma_div_is_ordered(PAGE_SIZE as int, boot_info.start_address as int, PAGE_SIZE as int);
        assert forall|g: u64|
            mb_start <= g && g as int <= mb_last_frame(*boot_info) implies table_walk(
            active_table.mapper.p4,
            4,
            (Page { number: g }),
        ) == Some(g) && l1_entry(active_table.mapper.p4, 4, (Page { number: g })) == Some(
            (g * PAGE_SIZE + PRESENT) as u64,
        ) by {
            assert(g != 0);
            assert(g < LOW_HALF_END / PAGE_SIZE);
            assert(table_walk(mapped_table, 4, (Page { number: g })) == Some(g));
            assert(l1_entry(mapped_table, 4, (Page { number: g })) == Some(
                (g * PAGE_SIZE + PRESENT) as u64,
            ));
        }
    }
    Ok(active_table)
}

/// Section frames stay within the low half.
proof fn lemma_section_frame_bounds(s: ElfSectionData)
    requires
        s.size >= 1,
        s.addr >= PAGE_SIZE,
        s.addr + s.size <= LOW_HALF_END,
    ensures
        1 <= section_first_frame(s) <= section_last_frame(s),
        section_last_frame(s) < LOW_HALF_END / PAGE_SIZE,
{
    lemma_div_is_ordered(PAGE_SIZE as int, s.addr as int, PAGE_SIZE as int);
    lemma_div_is_ordered(s.addr as int, s.addr + s.size - 1, PAGE_SIZE as int);
    lemma_div_bound((s.addr + s.size - 1) as u64);
}

/// An address below the low-half end names a frame below the low-half
/// frame count.
proof fn lemma_div_bound(a: u64)
    requires
        a < LOW_HALF_END,
    ensures
        a / PAGE_SIZE < LOW_HALF_END / PAGE_SIZE,
{
    lemma_div_is_ordered(a as int, (LOW_HALF_END - 1) as int, PAGE_SIZE as int);
}

/// Once section `si` is fully mapped (or skipped as unusable), the mapped
/// prefix grows by one.
proof fn lemma_sections_mapped_extend(t: Table, b: BootData, si: int)
    requires
        0 <= si < b.elf_sections@.len(),
        sections_identity_mapped(t, b, si),
        section_usable(b.elf_sections@[si]) ==> forall|g: int|
            #![trigger table_walk(t, 4, (Page { number: g as u64 }))]
            section_first_frame(b.elf_sections@[si]) <= g <= section_last_frame(
                b.elf_sections@[si],
            ) ==> table_walk(t, 4, (Page { number: g as u64 })) == Some(g as u64) && l1_entry(
                t,
                4,
                (Page { number: g as u64 }),
            ) == Some(
                (g * PAGE_SIZE + (spec_elf_flags(b.elf_sections@[si].flags) | PRESENT)) as u64,
            ),
    ensures
        sections_identity_mapped(t, b, si + 1),
{
}

} // verus!
