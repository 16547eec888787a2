//! The physical and virtual memory management core of a minimal x86-64
//! kernel and its bootloader: typed addresses, raw page-table entries, a
//! bitmap-backed physical frame allocator, a ring-buffer frame cache, a
//! 4-level page-table walker and mapper over an explicit page-frame
//! arena, the firmware memory-map seeding, the virtual address-space and
//! heap manager, and the boot-to-kernel handoff structure.

pub mod address;
pub mod bitmap;
pub mod boot_info;
pub mod elf;
pub mod frame_cache;
pub mod memory_map;
pub mod page_frame_allocator;
pub mod page_table;
pub mod page_table_manager;
pub mod ringbuffer;
pub mod unicode;
pub mod virtual_memory_manager;

pub use address::PhysicalAddress;
pub use address::VirtualAddress;
