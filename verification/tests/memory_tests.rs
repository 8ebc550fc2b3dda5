use somnia::flags::{Entry, NO_EXECUTE, PRESENT, WRITABLE};
use somnia::frame::{Frame, FrameAllocator, MemoryArea, PAGE_SIZE};
use somnia::frame_alloc::AreaFrameAllocator;
use somnia::mapper::Mapper;
use somnia::page::Page;
use somnia::remap::{from_elf_section_flags, remap_kernel, BootData, ElfSectionData};

fn test_allocator() -> AreaFrameAllocator {
    // One usable region [0x100000, 0x1000000), the kernel image in
    // [0x100000, 0x200000) and the boot blob in [0x200000, 0x201000).
    let areas = vec![MemoryArea::new(0x10_0000, 0x100_0000 - 0x10_0000)];
    AreaFrameAllocator::new(0x10_0000, 0x20_0000, 0x20_0000, 0x20_1000, areas)
}

#[test]
fn first_frame_skips_kernel_and_boot_info() {
    // The first free frame lies strictly after both exclusions: the
    // kernel image ends at 0x200000 and the boot blob at 0x201000, both
    // exclusive, so frame 0x201 is the first one holding neither.
    let mut allocator = test_allocator();
    let frame = allocator.allocate_frame().expect("a frame");
    assert_eq!(frame.number(), 0x20_1000 / PAGE_SIZE);
}

#[test]
fn allocated_frames_avoid_reserved_ranges() {
    let mut allocator = test_allocator();
    let mut previous = 0;
    for _ in 0..64 {
        let frame = allocator.allocate_frame().expect("a frame");
        let n = frame.number();
        // The reserved ranges are half-open: the frames holding kernel or
        // boot-information bytes.
        assert!(!(0x10_0000 / PAGE_SIZE <= n && n < 0x20_0000 / PAGE_SIZE));
        assert!(!(0x20_0000 / PAGE_SIZE <= n && n < 0x20_1000 / PAGE_SIZE));
        // With nothing given back, the scan only moves forward.
        assert!(n > previous || previous == 0);
        previous = n;
    }
}

#[test]
fn allocate_frames_are_distinct() {
    let mut allocator = test_allocator();
    let a = allocator.allocate_frame().unwrap().number();
    let b = allocator.allocate_frame().unwrap().number();
    let c = allocator.allocate_frame().unwrap().number();
    assert!(a != b && b != c && a != c);
}

#[test]
fn exhausted_allocator_returns_none() {
    let areas = vec![MemoryArea::new(0x1000, 2 * 4096)];
    let mut allocator = AreaFrameAllocator::new(0x0, 0x0, 0x0, 0x0, areas);
    let mut got = 0;
    while allocator.allocate_frame().is_some() {
        got += 1;
        assert!(got < 100);
    }
    assert!(got >= 1);
    assert!(allocator.allocate_frame().is_none());
}

#[test]
fn deallocated_frame_is_reused_first() {
    let mut allocator = test_allocator();
    let frame = allocator.allocate_frame().unwrap();
    let n = frame.number();
    allocator.deallocate_frame(frame);
    let again = allocator.allocate_frame().unwrap();
    assert_eq!(again.number(), n);
}

#[test]
fn choose_next_area_is_idempotent() {
    let mut allocator = test_allocator();
    allocator.allocate_frame().unwrap();
    allocator.choose_next_area();
    let first = allocator.next_free_frame.number();
    allocator.choose_next_area();
    assert_eq!(allocator.next_free_frame.number(), first);
    allocator.choose_next_area();
    assert_eq!(allocator.next_free_frame.number(), first);
}

#[test]
fn map_then_translate_returns_the_frame() {
    let mut allocator = test_allocator();
    let mut mapper = Mapper::new();
    let page = Page::containing_address(0x4000_0000);
    let frame = mapper.map(page, WRITABLE, &mut allocator).expect("mapped");
    let found = mapper.translate_page(page).expect("translated");
    assert_eq!(found.number(), frame.number());
    let addr = mapper.translate(0x4000_0000 + 0x123).expect("address");
    assert_eq!(addr, frame.number() * PAGE_SIZE + 0x123);
}

#[test]
fn high_half_page_maps_and_translates() {
    // A page in the canonical high half, mapped to a fresh frame.
    let mut allocator = test_allocator();
    let mut mapper = Mapper::new();
    let va: u64 = 0xffff_8000_0000_0000;
    let page = Page::containing_address(va);
    let frame = mapper.map(page, WRITABLE, &mut allocator).expect("mapped");
    let addr = mapper.translate(va + 0x10).expect("address");
    assert_eq!(addr, frame.number() * PAGE_SIZE + 0x10);
}

#[test]
fn map_to_round_trips_the_level_one_entry() {
    let mut allocator = test_allocator();
    let mut mapper = Mapper::new();
    let page = Page::containing_address(0x1234_5000);
    let frame = Frame::containing_address(0x7777_7000);
    mapper
        .map_to(page, frame.clone(), WRITABLE | NO_EXECUTE, &mut allocator)
        .expect("mapped");
    // Walk the owned tables down to the level-1 entry and read it back.
    let p4 = mapper.p4();
    let p3 = p4.next_table(page.p4_index()).expect("p3");
    let p2 = p3.next_table(page.p3_index()).expect("p2");
    let p1 = p2.next_table(page.p2_index()).expect("p1");
    let entry: &Entry = &p1.entries[page.p1_index()];
    let pointed = entry.pointed_frame().expect("present");
    assert_eq!(pointed.number(), frame.number());
    assert_eq!(entry.flags(), WRITABLE | NO_EXECUTE | PRESENT);
}

#[test]
fn unmap_removes_the_translation_and_is_idempotent() {
    let mut allocator = test_allocator();
    let mut mapper = Mapper::new();
    let page = Page::containing_address(0x4000_0000);
    mapper.map(page, WRITABLE, &mut allocator).expect("mapped");
    assert!(mapper.translate_page(page).is_some());
    mapper.unmap(page, &mut allocator);
    assert!(mapper.translate_page(page).is_none());
    // A second unmap of the same page is a safe no-op.
    mapper.unmap(page, &mut allocator);
    assert!(mapper.translate_page(page).is_none());
}

#[test]
fn identity_map_maps_the_frame_onto_itself() {
    let mut allocator = test_allocator();
    let mut mapper = Mapper::new();
    let frame = Frame::containing_address(0xb8000);
    mapper.identity_map(frame, WRITABLE, &mut allocator).expect("mapped");
    let addr = mapper.translate(0xb8000).expect("address");
    assert_eq!(addr, 0xb8000);
}

#[test]
fn elf_section_flags_translate_to_entry_flags() {
    let readable = ElfSectionData { addr: 0x1000, size: 0x1000, allocated: true, flags: 0x1 };
    assert_eq!(from_elf_section_flags(&readable), PRESENT | NO_EXECUTE);
    let code = ElfSectionData { addr: 0x1000, size: 0x1000, allocated: true, flags: 0x5 };
    assert_eq!(from_elf_section_flags(&code), PRESENT);
    let data = ElfSectionData { addr: 0x1000, size: 0x1000, allocated: true, flags: 0x3 };
    assert_eq!(from_elf_section_flags(&data), PRESENT | WRITABLE | NO_EXECUTE);
}

#[test]
fn remap_kernel_identity_maps_sections_and_guards_the_old_table() {
    let mut allocator = test_allocator();
    let boot_info = BootData {
        elf_sections: vec![
            ElfSectionData { addr: 0x10_0000, size: 0x2000, allocated: true, flags: 0x5 },
            ElfSectionData { addr: 0x10_2000, size: 0x1000, allocated: true, flags: 0x3 },
            // Not allocated: skipped.
            ElfSectionData { addr: 0x10_3000, size: 0x1000, allocated: false, flags: 0x3 },
            // Not page-aligned: skipped.
            ElfSectionData { addr: 0x10_4800, size: 0x100, allocated: true, flags: 0x1 },
        ],
        start_address: 0x20_0000,
        end_address: 0x20_1000,
    };
    let active = remap_kernel(&mut allocator, &boot_info).expect("remap");
    let mut active = active;
    // Every allocated page-aligned section frame is identity-mapped.
    for addr in [0x10_0000u64, 0x10_1000, 0x10_2000] {
        assert_eq!(active.mapper.translate(addr), Some(addr));
    }
    // The text-output frame and the boot blob are identity-mapped.
    assert_eq!(active.mapper.translate(0xb8000), Some(0xb8000));
    assert_eq!(active.mapper.translate(0x20_0000), Some(0x20_0000));
    // The skipped sections are not mapped.
    assert_eq!(active.mapper.translate(0x10_4000), None);
    // The old hierarchy's page is the guard: unmapped.
    let guard = Page::containing_address(0);
    assert!(active.mapper.translate_page(guard).is_none());
}

#[test]
fn page_indices_decompose_the_page_number() {
    let page = Page::containing_address(0xffff_8000_0000_0000);
    assert_eq!(page.p4_index(), 256);
    assert_eq!(page.p3_index(), 0);
    assert_eq!(page.p2_index(), 0);
    assert_eq!(page.p1_index(), 0);
    let low = Page::containing_address(0x4000_0000);
    assert_eq!(low.p4_index(), 0);
    assert_eq!(low.p3_index(), 1);
}

#[test]
fn frame_and_page_know_their_addresses() {
    let frame = Frame::containing_address(0x20_1234);
    assert_eq!(frame.number(), 0x201);
    assert_eq!(frame.start_address(), 0x20_1000);
    let page = Page::containing_address(0x7fff_ffff_f123);
    assert_eq!(page.start_address(), 0x7fff_ffff_f000);
}
