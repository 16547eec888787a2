use kmemcore::address::PhysicalAddress;
use kmemcore::address::VirtualAddress;
use kmemcore::bitmap::Bitmap;
use kmemcore::memory_map::DescriptorType;
use kmemcore::memory_map::EfiMemoryDescriptor;
use kmemcore::memory_map::EfiMemoryMap;
use kmemcore::page_frame_allocator::FrameAllocator;
use kmemcore::page_frame_allocator::PageFrameAllocator;

fn conventional_descriptor(base: u64, num_pages: u64) -> EfiMemoryDescriptor {
    EfiMemoryDescriptor {
        mem_type: 7,
        phys_addr: PhysicalAddress::new(base),
        virt_addr: 0,
        num_pages,
        attribs: 0,
    }
}

fn sixteen_page_map() -> EfiMemoryMap {
    EfiMemoryMap {
        descriptors: vec![conventional_descriptor(0x100000, 16)],
        descriptors_phys: PhysicalAddress::new(0x90000),
        map_size: 48,
        descriptor_size: 48,
        num_pages: 1,
    }
}

#[test]
fn physical_address_masks_high_bits() {
    let a = PhysicalAddress::new(0xFFFF_FFFF_FFFF_FFFF);
    assert_eq!(0x000F_FFFF_FFFF_F000, a.as_u64());
    assert_eq!(0, a.as_u64() & !0x000F_FFFF_FFFF_F000u64);
    assert_eq!(0x200000, PhysicalAddress::new(0x200000).as_u64());
}

#[test]
fn virtual_address_is_canonical() {
    // Bit 47 set: the sign extension must fill bits 63:48.
    let high = VirtualAddress::new(0x0000_8000_0000_0000);
    assert_eq!(0xFFFF_8000_0000_0000, high.as_u64());
    // Bit 47 clear: bits 63:48 must be cleared.
    let low = VirtualAddress::new(0x1234_0000_DEAD_B000);
    assert_eq!(0x0000_0000_DEAD_B000, low.as_u64());
    let kernel = VirtualAddress::new(0xFFFF_8000_0000_0000);
    assert_eq!(0xFFFF_8000_0000_0000, kernel.as_u64());
}

#[test]
fn virtual_address_index_round_trip() {
    let v = VirtualAddress::new(0xFFFF_8765_4321_0FED);
    let rebuilt = VirtualAddress::new_from_page_table_indexes(
        v.p4_index() as u64,
        v.p3_index() as u64,
        v.p2_index() as u64,
        v.p1_index() as u64,
        v.page_offset(),
    );
    assert_eq!(v.as_u64(), rebuilt.as_u64());

    let kernel_heap = VirtualAddress::new(0xFFFF_8000_0000_0000);
    let rebuilt2 = VirtualAddress::new_from_page_table_indexes(
        kernel_heap.p4_index() as u64,
        kernel_heap.p3_index() as u64,
        kernel_heap.p2_index() as u64,
        kernel_heap.p1_index() as u64,
        kernel_heap.page_offset(),
    );
    assert_eq!(kernel_heap.as_u64(), rebuilt2.as_u64());
    assert_eq!(256, kernel_heap.p4_index());
    assert_eq!(0, kernel_heap.p3_index());
}

#[test]
fn bitmap_set_then_get_round_trips() {
    let mut bitmap = Bitmap::new_init_zero(4);
    for i in 0..32usize {
        assert_eq!(false, bitmap.get(i));
    }
    assert_eq!(true, bitmap.set(13, true));
    assert_eq!(true, bitmap.get(13));
    assert_eq!(false, bitmap.get(12));
    assert_eq!(false, bitmap.get(14));
    assert_eq!(true, bitmap.set(13, false));
    assert_eq!(false, bitmap.get(13));
    // Out of range: reads are false, writes report failure and change
    // nothing.
    assert_eq!(false, bitmap.get(32));
    assert_eq!(false, bitmap.set(32, true));
    assert_eq!(false, bitmap.get(32));
    for i in 0..32usize {
        assert_eq!(false, bitmap.get(i));
    }
}

#[test]
fn allocator_conserves_total_memory() {
    let map = sixteen_page_map();
    let mut allocator = map.init_frame_allocator();
    let total = allocator.get_free_ram() + allocator.get_reserved_ram() + allocator.get_used_ram();

    let a = allocator.request_page();
    let b = allocator.request_page();
    allocator.free_page(a);
    allocator.free_page(b);
    let _ = allocator.request_page();
    allocator.lock_page(PhysicalAddress::new(0x101000));
    allocator.unreserve_page(PhysicalAddress::new(0x42000));
    assert_eq!(
        total,
        allocator.get_free_ram() + allocator.get_reserved_ram() + allocator.get_used_ram()
    );
}

#[test]
fn sequential_requests_never_repeat() {
    let map = sixteen_page_map();
    let mut allocator = map.init_frame_allocator();
    let a = allocator.request_page();
    let b = allocator.request_page();
    assert_ne!(0, a.as_u64());
    assert_ne!(0, b.as_u64());
    assert_ne!(a.as_u64(), b.as_u64());
}

#[test]
fn free_then_request_finds_a_page() {
    let map = sixteen_page_map();
    let mut allocator = map.init_frame_allocator();
    let mut pages = Vec::new();
    for _ in 0..16 {
        let page = allocator.request_page();
        assert_ne!(0, page.as_u64());
        pages.push(page.as_u64());
    }
    // Exhausted: the request path reports the zero sentinel.
    assert_eq!(0, allocator.request_page().as_u64());

    allocator.free_page(PhysicalAddress::new(pages[7]));
    let again = allocator.request_page();
    assert_eq!(pages[7], again.as_u64());
}

#[test]
fn sixteen_page_map_serves_exactly_sixteen_pages() {
    let map = sixteen_page_map();
    let mut allocator = map.init_frame_allocator();

    assert_eq!(16 * 4096, allocator.get_free_ram());
    let mut pages = Vec::new();
    for _ in 0..16 {
        let page = allocator.request_page();
        assert_ne!(0, page.as_u64());
        assert!(page.as_u64() >= 0x100000);
        assert!(page.as_u64() < 0x110000);
        pages.push(page.as_u64());
    }
    pages.sort();
    pages.dedup();
    assert_eq!(16, pages.len());

    // The seventeenth request must return the sentinel.
    assert_eq!(0, allocator.request_page().as_u64());

    // Freeing any one page makes the next request succeed.
    allocator.free_page(PhysicalAddress::new(pages[3]));
    assert_ne!(0, allocator.request_page().as_u64());
}

#[test]
fn memory_map_classification_and_sizes() {
    let d = conventional_descriptor(0x100000, 16);
    assert_eq!(DescriptorType::EfiConventionalMemory, d.mem_type());
    assert_eq!(true, d.is_usable_memory());
    assert_eq!(16 * 4096, d.num_bytes());
    assert_eq!(0x110000, d.max_physical_address().as_u64());

    let reserved = EfiMemoryDescriptor {
        mem_type: 0,
        phys_addr: PhysicalAddress::new(0x200000),
        virt_addr: 0,
        num_pages: 4,
        attribs: 0,
    };
    assert_eq!(DescriptorType::EfiReservedMemoryType, reserved.mem_type());
    assert_eq!(false, reserved.is_usable_memory());

    let map = EfiMemoryMap {
        descriptors: vec![conventional_descriptor(0x100000, 16), reserved],
        descriptors_phys: PhysicalAddress::new(0x90000),
        map_size: 96,
        descriptor_size: 48,
        num_pages: 1,
    };
    assert_eq!(2, map.num_entries());
    assert_eq!(0x110000, map.max_usable_physical_address().as_u64());
    assert_eq!(0x204000, map.max_physical_address().as_u64());
    assert_eq!(0x110, map.get_usable_memory_size_pages());
    assert_eq!(0x110000, map.get_usable_memory_size_bytes());

    assert!(map.get_descriptor(0).is_ok());
    assert!(map.get_descriptor(2).is_err());
    let mut iter = map.iter();
    assert_eq!(7, iter.next().unwrap().mem_type);
    assert_eq!(0, iter.next().unwrap().mem_type);
    assert!(iter.next().is_none());
}

#[test]
fn memory_map_free_pages_returns_buffer() {
    let mut map = sixteen_page_map();
    let bitmap = Bitmap::new_init(34, 0xFF);
    let mut allocator = PageFrameAllocator::new_from_bitmap(&bitmap, 0, 0, 272 * 4096);
    let free_before = allocator.get_free_ram();
    // The map buffer page at 0x90000 goes back to the allocator.
    map.free_pages(&mut allocator);
    assert_eq!(0, map.num_entries());
    assert_eq!(free_before + 4096, allocator.get_free_ram());
    // The returned page is the first free bit the scan finds.
    assert_eq!(0x90000, allocator.request_page().as_u64());
}
