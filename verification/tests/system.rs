use kmemcore::address::PhysicalAddress;
use kmemcore::address::VirtualAddress;
use kmemcore::bitmap::Bitmap;
use kmemcore::boot_info::BootInfo;
use kmemcore::boot_info::FrameBuffer;
use kmemcore::boot_info::MemInfo;
use kmemcore::elf::ElfPhysicalHeader64;
use kmemcore::elf::ElfPhysicalType;
use kmemcore::frame_cache::get_temp_allocator;
use kmemcore::frame_cache::PhysicalFrameAllocator;
use kmemcore::frame_cache::TempAllocWrapper;
use kmemcore::memory_map::EfiMemoryDescriptor;
use kmemcore::memory_map::EfiMemoryMap;
use kmemcore::page_frame_allocator::FrameAllocator;
use kmemcore::page_frame_allocator::PageFrameAllocator;
use kmemcore::page_table_manager::PageTableManager;
use kmemcore::unicode::encode_str_as_ucs2;
use kmemcore::virtual_memory_manager::MemorySpace;
use kmemcore::virtual_memory_manager::VirtualMemoryManager;

fn seeded_allocator() -> PageFrameAllocator {
    let bitmap = Bitmap::new_init_zero(64);
    let mut allocator = PageFrameAllocator::new_from_bitmap(&bitmap, 512 * 4096, 0, 0);
    allocator.lock_page(PhysicalAddress::new(0));
    allocator
}

#[test]
fn boot_info_magic_checks() {
    let mut info = BootInfo::default();
    assert!(info.valid_magic());
    info.magic[1] = 0;
    assert!(!info.valid_magic());
}

#[test]
fn mem_info_move_out_transfers_ownership() {
    let bitmap = Bitmap::new_init(8, 0xAB);
    let mut info = MemInfo::new(bitmap, 100, 200, 300, PhysicalAddress::new(0x110000));
    let taken = info.move_out();
    assert_eq!(100, taken.free_memory);
    assert_eq!(200, taken.reserved_memory);
    assert_eq!(300, taken.used_memory);
    assert_eq!(0x110000, taken.max_physical_address.as_u64());
    assert_eq!(8, taken.bitmap.size());
    assert_eq!(true, taken.bitmap.get(0));
    // The handoff structure no longer owns anything.
    assert_eq!(0, info.bitmap.size());
    assert_eq!(0, info.free_memory);
}

#[test]
fn frame_buffer_carries_its_fields() {
    let fb = FrameBuffer::new(PhysicalAddress::new(0x80000000), 1920 * 1080 * 4, 1920, 1080, 1920);
    assert_eq!(0x80000000, fb.base_address.as_u64());
    assert_eq!(1920 * 1080 * 4, fb.buffer_size);
    assert_eq!(1920, fb.width);
    assert_eq!(1080, fb.height);
    assert_eq!(1920, fb.pixels_per_scan_line);
}

#[test]
fn elf_segment_types_decode() {
    let mut header = ElfPhysicalHeader64::default();
    assert_eq!(ElfPhysicalType::ElfPhysicalTypeNull, header.p_type());
    header._p_type = 1;
    assert_eq!(ElfPhysicalType::ElfPhysicalTypeLoad, header.p_type());
    header._p_type = 0x6474e551;
    assert_eq!(ElfPhysicalType::ElfPhysicalTypeGnuStack, header.p_type());
    header._p_type = 0xDEAD;
    assert_eq!(ElfPhysicalType::ElfPhysicalTypeNull, header.p_type());
}

#[test]
fn heap_growth_maps_fresh_pages() {
    let mut allocator = seeded_allocator();
    let mut manager = PageTableManager::new_from_allocator(&mut allocator, 0).unwrap();
    let heap_base = VirtualAddress::new(0xFFFF_8000_0000_0000);

    let mut vmm = VirtualMemoryManager::new_uninit();
    vmm.init(0, manager.get_p4_address(), true, heap_base);

    let (new_end, grown) = vmm.alter_heap(0, &mut manager, &mut allocator, 2);
    assert!(grown);
    assert_eq!(heap_base.as_u64() + 2 * 4096, new_end.as_u64());

    // Both heap pages are eagerly backed by a physical frame.
    assert!(manager.get_page_physical_address(heap_base).is_some());
    assert!(manager.get_page_physical_address(heap_base.increment_page_4kb(1)).is_some());

    // Zero increment is a pure query; shrink is a documented no-op.
    assert_eq!(new_end.as_u64(), vmm.alter_heap(0, &mut manager, &mut allocator, 0).0.as_u64());
    assert_eq!(new_end.as_u64(), vmm.alter_heap(0, &mut manager, &mut allocator, -1).0.as_u64());
}

#[test]
fn memory_space_tracks_heap_bounds() {
    let heap_base = VirtualAddress::new(0xFFFF_8000_0000_0000);
    let mut space = MemorySpace::new(PhysicalAddress::new(0x1000), true, heap_base);
    assert_eq!(heap_base.as_u64(), space.heap_end.as_u64());
    space.reinit(PhysicalAddress::new(0x2000), false, heap_base);
    assert_eq!(0x2000, space.p4_addr.as_u64());
    assert!(!space.is_wired);
    assert_eq!(heap_base.as_u64(), space.heap_end.as_u64());
}

#[test]
fn frame_cache_serves_and_returns_frames() {
    let backing = seeded_allocator();
    let mut cache = PhysicalFrameAllocator::new(get_temp_allocator(backing));

    // The first request triggers a refill from the backing allocator.
    let a = cache.request_page();
    let b = cache.request_page();
    assert_ne!(0, a.as_u64());
    assert_ne!(0, b.as_u64());
    assert_ne!(a.as_u64(), b.as_u64());

    // A freed frame is cached and handed out again before fresh ones.
    cache.free_page(a);
    let mut seen = false;
    for _ in 0..512 {
        if cache.request_page().as_u64() == a.as_u64() {
            seen = true;
            break;
        }
    }
    assert!(seen);
}

#[test]
fn uninitialised_frame_cache_reports_exhaustion() {
    let mut cache = PhysicalFrameAllocator::new_uninit();
    assert_eq!(0, cache.request_page().as_u64());

    // A fresh cache bound to a real allocator before first use serves
    // real frames.
    let mut cache2 = PhysicalFrameAllocator::new_uninit();
    cache2.set_mem_manager(get_temp_allocator(seeded_allocator()));
    assert_ne!(0, cache2.request_page().as_u64());
}

#[test]
fn bulk_alloc_fills_the_store() {
    let mut wrapper = get_temp_allocator(seeded_allocator());
    let mut store = vec![PhysicalAddress::new(0); 8];
    let count = wrapper.bulk_alloc(&mut store, 6);
    assert_eq!(6, count);
    let mut values: Vec<u64> = store[0..6].iter().map(|a| a.as_u64()).collect();
    values.sort();
    values.dedup();
    assert_eq!(6, values.len());
    assert!(values.iter().all(|v| *v != 0));
    assert_eq!(0, store[6].as_u64());
    wrapper.free(PhysicalAddress::new(values[0]));
    let w: &mut TempAllocWrapper = &mut wrapper;
    assert_ne!(0, w.request_page().as_u64());
}

#[test]
fn boot_handoff_end_to_end() {
    // The bootloader side: seed an allocator from a firmware map, build
    // the kernel page table, and package the handoff structure.
    let map = EfiMemoryMap {
        descriptors: vec![EfiMemoryDescriptor {
            mem_type: 7,
            phys_addr: PhysicalAddress::new(0x100000),
            virt_addr: 0,
            num_pages: 64,
            attribs: 0,
        }],
        descriptors_phys: PhysicalAddress::new(0x90000),
        map_size: 48,
        descriptor_size: 48,
        num_pages: 1,
    };
    let mut allocator = map.init_frame_allocator();
    let max_physical_address = map.max_physical_address();

    let result = kmemcore::page_table_manager::init_page_table_manager(
        &mut allocator,
        max_physical_address,
        VirtualAddress::new(0xFFFF_8000_0000_0000),
    );
    let (mut manager, offset) = result.unwrap();

    let mut bootinfo = BootInfo::default();
    bootinfo.page_table_memory_offset = offset;
    bootinfo.meminfo = MemInfo::new(
        allocator.page_bitmap(),
        allocator.get_free_ram(),
        allocator.get_reserved_ram(),
        allocator.get_used_ram(),
        max_physical_address,
    );

    // The kernel side: validate the magic, re-seed the temporary
    // allocator from the handed-off bitmap, and grow the heap.
    assert!(bootinfo.valid_magic());
    let meminfo = bootinfo.meminfo.move_out();
    let mut temp_alloc = PageFrameAllocator::new_uninit();
    temp_alloc.init(
        &meminfo.bitmap,
        meminfo.free_memory,
        meminfo.reserved_memory,
        meminfo.used_memory,
    );

    let heap_base = VirtualAddress::new(0xFFFF_8000_0000_0000);
    let mut vmm = VirtualMemoryManager::new_uninit();
    vmm.init(
        bootinfo.page_table_memory_offset,
        manager.get_p4_address(),
        true,
        heap_base,
    );
    let mut kernel_cache = PhysicalFrameAllocator::new(get_temp_allocator(temp_alloc));
    let (new_end, grown) = vmm.alter_heap(0, &mut manager, &mut kernel_cache, 1);
    assert!(grown);
    assert_eq!(heap_base.as_u64() + 4096, new_end.as_u64());
    assert!(manager.get_page_physical_address(heap_base).is_some());
}

#[test]
fn ucs2_encoding_handles_all_widths() {
    let mut buffer = vec![0xFFFFu16; 8];
    let status = encode_str_as_ucs2("AB", 0, &mut buffer);
    assert_eq!(2, status.input_read);
    assert_eq!(2, status.output_written);
    assert_eq!(65, buffer[0]);
    assert_eq!(66, buffer[1]);
    assert_eq!(0, buffer[2]);

    // A two-byte sequence: the e-acute code point.
    let mut buffer = vec![0xFFFFu16; 4];
    let status = encode_str_as_ucs2("\u{e9}", 0, &mut buffer);
    assert_eq!(1, status.output_written);
    assert_eq!(0xE9, buffer[0]);
    assert_eq!(0, buffer[1]);

    // A three-byte sequence: the euro sign.
    let mut buffer = vec![0xFFFFu16; 4];
    let status = encode_str_as_ucs2("\u{20ac}", 0, &mut buffer);
    assert_eq!(1, status.output_written);
    assert_eq!(0x20AC, buffer[0]);

    // A four-byte sequence needs a surrogate pair and becomes the
    // replacement glyph.
    let mut buffer = vec![0xFFFFu16; 4];
    let status = encode_str_as_ucs2("\u{1f600}", 0, &mut buffer);
    assert_eq!(4, status.input_read);
    assert_eq!(1, status.output_written);
    assert_eq!(0x2588, buffer[0]);
}

#[test]
fn ucs2_encoding_leaves_room_for_the_null() {
    let mut buffer = vec![0xFFFFu16; 3];
    let status = encode_str_as_ucs2("ABC", 0, &mut buffer);
    assert_eq!(2, status.input_read);
    assert_eq!(2, status.output_written);
    assert_eq!(65, buffer[0]);
    assert_eq!(66, buffer[1]);
    assert_eq!(0, buffer[2]);

    // Starting mid-string picks up where the last call stopped.
    let mut buffer = vec![0xFFFFu16; 3];
    let status = encode_str_as_ucs2("ABC", 2, &mut buffer);
    assert_eq!(3, status.input_read);
    assert_eq!(1, status.output_written);
    assert_eq!(67, buffer[0]);
    assert_eq!(0, buffer[1]);
}

#[test]
fn unwired_space_advances_heap_without_mapping() {
    let mut allocator = seeded_allocator();
    let mut manager = PageTableManager::new_from_allocator(&mut allocator, 0).unwrap();
    let heap_base = VirtualAddress::new(0xFFFF_8000_0000_0000);

    let mut vmm = VirtualMemoryManager::new_uninit();
    vmm.init(0, manager.get_p4_address(), false, heap_base);

    let free_before = allocator.get_free_ram();
    let (new_end, grown) = vmm.alter_heap(0, &mut manager, &mut allocator, 2);
    assert!(grown);
    assert_eq!(heap_base.as_u64() + 2 * 4096, new_end.as_u64());
    // No frame was drawn and nothing was mapped: the space is not wired.
    assert_eq!(free_before, allocator.get_free_ram());
    assert!(manager.get_page_physical_address(heap_base).is_none());
}
