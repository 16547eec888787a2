use kmemcore::address::PhysicalAddress;
use kmemcore::address::VirtualAddress;
use kmemcore::bitmap::Bitmap;
use kmemcore::page_frame_allocator::FrameAllocator;
use kmemcore::page_frame_allocator::PageFrameAllocator;
use kmemcore::page_table::PageTable;
use kmemcore::page_table::PageTableEntry;
use kmemcore::page_table_manager::init_page_table_manager;
use kmemcore::page_table_manager::PageTableManager;
use kmemcore::page_table_manager::MAX_MEM_SIZE;

/// An allocator with 512 free pages, page zero locked so that its base
/// address never collides with the zero sentinel.
fn test_allocator() -> PageFrameAllocator {
    let bitmap = Bitmap::new_init_zero(64);
    let mut allocator = PageFrameAllocator::new_from_bitmap(&bitmap, 512 * 4096, 0, 0);
    allocator.lock_page(PhysicalAddress::new(0));
    allocator
}

#[test]
fn entry_bits_are_exact() {
    let mut entry = PageTableEntry::new_unused();
    assert!(entry.is_unused());
    assert!(!entry.present());

    entry.set_address(PhysicalAddress::new(0x200000));
    entry.set_present(true);
    entry.set_read_write(true);
    assert_eq!(0x200000, entry.address().as_u64());
    assert!(entry.present());
    assert!(entry.read_write());
    assert!(!entry.page_size());

    // Changing the address leaves the flags alone and vice versa.
    entry.set_address(PhysicalAddress::new(0x300000));
    assert!(entry.present());
    assert!(entry.read_write());
    assert_eq!(0x300000, entry.address().as_u64());
    entry.set_page_size(true);
    assert_eq!(0x300000, entry.address().as_u64());
    entry.set_present(false);
    assert!(!entry.present());
    assert!(entry.read_write());
    assert!(entry.page_size());
    entry.make_unused();
    assert!(entry.is_unused());
}

#[test]
fn page_table_starts_unused_and_copies() {
    let mut table = PageTable::new_unused();
    let mut entry = PageTableEntry::new_unused();
    entry.set_address(PhysicalAddress::new(0x5000));
    entry.set_present(true);
    table.set_entry(17, entry);
    assert!(table.entry(16).is_unused());
    assert!(!table.entry(17).is_unused());

    let mut copy = PageTable::new_unused();
    copy.copy_from(&table);
    assert_eq!(0x5000, copy.entry(17).address().as_u64());
    copy.make_unused();
    assert!(copy.entry(17).is_unused());
}

#[test]
fn map_then_query_round_trips() {
    let mut allocator = test_allocator();
    let mut manager = PageTableManager::new_from_allocator(&mut allocator, 0).unwrap();

    let virtual_addr = VirtualAddress::new(0xFFFF_8000_0000_0000);
    let physical_addr = PhysicalAddress::new(0x200000);

    let free_before = allocator.get_free_ram();
    let ok = manager.map_memory(virtual_addr, physical_addr, &mut allocator);
    assert!(ok);

    // Three fresh tables were allocated on the way down (the root came
    // from the constructor), so four levels exist in all.
    assert_eq!(free_before - 3 * 4096, allocator.get_free_ram());

    let found = manager.get_page_physical_address(virtual_addr);
    assert_eq!(0x200000, found.unwrap().as_u64());

    // An unmapped address reports no mapping.
    assert!(manager.get_page_physical_address(VirtualAddress::new(0x1000)).is_none());
    assert!(manager.get_page_physical_address(VirtualAddress::new(0xFFFF_8000_0040_0000)).is_none());
}

#[test]
fn map_memory_pages_maps_consecutive_pages() {
    let mut allocator = test_allocator();
    let mut manager = PageTableManager::new_from_allocator(&mut allocator, 0).unwrap();

    let virtual_addr = VirtualAddress::new(0xFFFF_8000_0000_0000);
    let physical_addr = PhysicalAddress::new(0x400000);
    let ok = manager.map_memory_pages(virtual_addr, physical_addr, 4, &mut allocator);
    assert!(ok);

    for page in 0..4u64 {
        let v = virtual_addr.increment_page_4kb(page);
        let found = manager.get_page_physical_address(v).unwrap();
        assert_eq!(0x400000 + page * 4096, found.as_u64());
    }
}

#[test]
fn manager_without_tables_maps_nothing() {
    let manager = PageTableManager::new(PhysicalAddress::new(0x1000), 0);
    assert!(manager.get_page_physical_address(VirtualAddress::new(0x1000)).is_none());
    assert_eq!(0x1000, manager.get_p4_address().as_u64());
}

#[test]
fn translate_address_applies_offset() {
    let manager = PageTableManager::new(PhysicalAddress::new(0x1000), 0xFFFF_8000_0000_0000);
    let v = manager.translate_address(PhysicalAddress::new(0x2000));
    assert_eq!(0xFFFF_8000_0000_2000, v.as_u64());
}

#[test]
fn init_page_table_manager_builds_both_mappings() {
    let mut allocator = test_allocator();
    // Sixteen pages of physical memory below the kernel image.
    let result = init_page_table_manager(
        &mut allocator,
        PhysicalAddress::new(0x10000),
        VirtualAddress::new(0xFFFF_8000_0000_0000),
    );
    let (manager, offset) = result.unwrap();
    let one_gib: u64 = 1024 * 1024 * 1024;
    assert_eq!(0xFFFF_8000_0000_0000 - one_gib, offset);

    // Identity mapping: physical page 1 translates to itself.
    let found = manager.get_page_physical_address(VirtualAddress::new(0x1000)).unwrap();
    assert_eq!(0x1000, found.as_u64());

    // Offset mapping: the same physical page is visible at the offset.
    let offset_view = manager.translate_address(PhysicalAddress::new(0x1000));
    let found2 = manager.get_page_physical_address(offset_view).unwrap();
    assert_eq!(0x1000, found2.as_u64());
}

#[test]
fn init_page_table_manager_rejects_oversized_memory() {
    let mut allocator = test_allocator();
    let result = init_page_table_manager(
        &mut allocator,
        PhysicalAddress::new(MAX_MEM_SIZE + 4096),
        VirtualAddress::new(0xFFFF_8000_0000_0000),
    );
    assert!(result.is_none());
}

#[test]
fn map_memory_fails_when_allocator_is_exhausted() {
    // Two free pages are not enough for the three tables a fresh walk
    // needs.
    let bitmap = Bitmap::new_init(64, 0xFF);
    let mut allocator = PageFrameAllocator::new_from_bitmap(&bitmap, 0, 0, 512 * 4096);
    allocator.free_page(PhysicalAddress::new(0x1000));
    allocator.free_page(PhysicalAddress::new(0x2000));
    allocator.free_page(PhysicalAddress::new(0x3000));

    let mut manager = PageTableManager::new_from_allocator(&mut allocator, 0).unwrap();
    let ok = manager.map_memory(
        VirtualAddress::new(0xFFFF_8000_0000_0000),
        PhysicalAddress::new(0x200000),
        &mut allocator,
    );
    assert!(!ok);
}

#[test]
fn unmap_p4_index_clears_only_that_slot() {
    let mut allocator = test_allocator();
    let mut manager = PageTableManager::new_from_allocator(&mut allocator, 0).unwrap();

    let low = VirtualAddress::new(0x1000);
    let high = VirtualAddress::new(0xFFFF_8000_0000_0000);
    assert!(manager.map_memory(low, PhysicalAddress::new(0x5000), &mut allocator));
    assert!(manager.map_memory(high, PhysicalAddress::new(0x6000), &mut allocator));

    // The firmware-teardown step: drop the identity-mapped low slot.
    manager.unmap_p4_index(0);

    assert!(manager.get_page_physical_address(low).is_none());
    assert_eq!(0x6000, manager.get_page_physical_address(high).unwrap().as_u64());
}

#[test]
fn init_page_table_manager_rejects_overlapping_offset_region() {
    let mut allocator = test_allocator();
    // A kernel base right at the offset-mapping ceiling puts the offset
    // region inside the identity-mapped low range; mapping it there
    // would clobber the identity map.
    let result = init_page_table_manager(
        &mut allocator,
        PhysicalAddress::new(0x10000),
        VirtualAddress::new(MAX_MEM_SIZE),
    );
    assert!(result.is_none());
}
