//! The boot-to-kernel handoff structure.
//!
//! The bootloader fills one `BootInfo` in pages it owns, remaps those same
//! physical pages into the kernel's offset-mapped virtual space, and hands
//! the kernel the new virtual pointer. The kernel trusts the structure
//! only after checking the magic bytes; on a mismatch it must halt.

use vstd::prelude::*;

use crate::address::PhysicalAddress;
use crate::address::VirtualAddress;
use crate::bitmap::Bitmap;

verus! {

/// Whether four bytes are the boot-info magic value.
pub open spec fn spec_valid_magic(m: Seq<u8>) -> bool {
    m.len() == 4 && m[0] == 15u8 && m[1] == 106u8 && m[2] == 86u8 && m[3] == 167u8
}

/// The frame-buffer descriptor handed from the bootloader to the kernel.
pub struct FrameBuffer {
    pub base_address: PhysicalAddress,
    pub buffer_size: usize,
    pub width: u32,
    pub height: u32,
    pub pixels_per_scan_line: u32,
}

impl FrameBuffer {
    pub fn new(
        base_address: PhysicalAddress,
        buffer_size: usize,
        width: u32,
        height: u32,
        pixels_per_scan_line: u32,
    ) -> (r: FrameBuffer)
        ensures
            r.base_address == base_address,
            r.buffer_size == buffer_size,
            r.width == width,
            r.height == height,
            r.pixels_per_scan_line == pixels_per_scan_line,
    {
        FrameBuffer { base_address, buffer_size, width, height, pixels_per_scan_line }
    }
}

impl Default for FrameBuffer {
    /// An empty frame buffer at the zero address.
    fn default() -> (r: FrameBuffer)
        ensures
            r.base_address@ == 0,
            r.buffer_size == 0,
            r.width == 0,
            r.height == 0,
            r.pixels_per_scan_line == 0,
    {
        proof {
            assert(0u64 & 0x000F_FFFF_FFFF_F000 == 0) by (bit_vector);
        }
        FrameBuffer {
            base_address: PhysicalAddress::new(0),
            buffer_size: 0,
            width: 0,
            height: 0,
            pixels_per_scan_line: 0,
        }
    }
}

/// The memory description the bootloader hands over: the page bitmap and
/// the counters the kernel's temporary allocator is re-seeded from.
pub struct MemInfo {
    pub bitmap: Bitmap,
    pub free_memory: u64,
    pub reserved_memory: u64,
    pub used_memory: u64,
    pub max_physical_address: PhysicalAddress,
}

impl MemInfo {
    pub fn new(
        bitmap: Bitmap,
        free_memory: u64,
        reserved_memory: u64,
        used_memory: u64,
        max_physical_address: PhysicalAddress,
    ) -> (r: MemInfo)
        ensures
            r.bitmap@ == bitmap@,
            r.free_memory == free_memory,
            r.reserved_memory == reserved_memory,
            r.used_memory == used_memory,
            r.max_physical_address == max_physical_address,
    {
        MemInfo { bitmap, free_memory, reserved_memory, used_memory, max_physical_address }
    }

    /// Takes the memory description out, leaving an empty one behind:
    /// the explicit ownership transfer of the bitmap from the handoff
    /// structure to the kernel's allocator.
    pub fn move_out(&mut self) -> (r: MemInfo)
        ensures
            r.bitmap@ == old(self).bitmap@,
            r.free_memory == old(self).free_memory,
            r.reserved_memory == old(self).reserved_memory,
            r.used_memory == old(self).used_memory,
            r.max_physical_address == old(self).max_physical_address,
            final(self).bitmap@.len() == 0,
            final(self).free_memory == 0,
            final(self).reserved_memory == 0,
            final(self).used_memory == 0,
            final(self).max_physical_address@ == 0,
    {
        let mut output = MemInfo::default();
        core::mem::swap(&mut output, self);
        output
    }
}

impl Default for MemInfo {
    /// An empty memory description: no bitmap bytes, zero counters.
    fn default() -> (r: MemInfo)
        ensures
            r.bitmap@.len() == 0,
            r.free_memory == 0,
            r.reserved_memory == 0,
            r.used_memory == 0,
            r.max_physical_address@ == 0,
    {
        proof {
            assert(0u64 & 0x000F_FFFF_FFFF_F000 == 0) by (bit_vector);
        }
        MemInfo {
            bitmap: Bitmap::new_uninit(),
            free_memory: 0,
            reserved_memory: 0,
            used_memory: 0,
            max_physical_address: PhysicalAddress::new(0),
        }
    }
}

/// The handoff structure passed from the bootloader to the kernel.
pub struct BootInfo {
    pub magic: [u8; 4],
    pub framebuffer: FrameBuffer,
    pub page_table_memory_offset: u64,
    pub next_available_kernel_page: VirtualAddress,
    pub meminfo: MemInfo,
}

impl BootInfo {
    /// The sanity check the kernel runs before trusting the structure.
    pub fn valid_magic(&self) -> (r: bool)
        ensures
            r == spec_valid_magic(self.magic@),
    {
        self.magic[0] == 15 && self.magic[1] == 106 && self.magic[2] == 86 && self.magic[3] == 167
    }
}

impl Default for BootInfo {
    /// A fresh handoff structure with the magic bytes set and everything
    /// else empty.
    fn default() -> (r: BootInfo)
        ensures
            spec_valid_magic(r.magic@),
            r.page_table_memory_offset == 0,
            r.next_available_kernel_page@ == 0,
            r.meminfo.bitmap@.len() == 0,
    {
        proof {
            assert(0u64 & 0x0000_FFFF_FFFF_FFFF == 0 && 0u64 & 0x0000_8000_0000_0000
                == 0) by (bit_vector);
        }
        BootInfo {
            magic: [15, 106, 86, 167],
            framebuffer: FrameBuffer::default(),
            page_table_memory_offset: 0,
            next_available_kernel_page: VirtualAddress::new(0),
            meminfo: MemInfo::default(),
        }
    }
}

} // verus!
