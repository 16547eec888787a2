//! The firmware memory map: a sequence of typed descriptors that the
//! frame allocator is seeded from.
//!
//! Each descriptor classifies a physical range as usable or not per a
//! fixed type table: loader code and data, boot-services code and data,
//! conventional memory and ACPI-reclaim memory are usable, everything
//! else is not. Seeding starts from an all-reserved bitmap and
//! unreserves exactly the conventional ranges.

use vstd::prelude::*;

use crate::address::PAGE_SIZE;
use crate::address::PhysicalAddress;
use crate::bitmap::Bitmap;
use crate::page_frame_allocator::AllocatorView;
use crate::page_frame_allocator::PageFrameAllocator;
use crate::page_frame_allocator::spec_free_pages;
use crate::page_frame_allocator::spec_unreserve_pages;

verus! {

/// One firmware memory-map entry: a typed physical range. The virtual
/// address is an opaque firmware-provided value, carried unread.
#[derive(Clone, Copy, Debug)]
pub struct EfiMemoryDescriptor {
    pub mem_type: u32,
    pub phys_addr: PhysicalAddress,
    pub virt_addr: u64,
    pub num_pages: u64,
    pub attribs: u64,
}

#[derive(Clone, Copy, Debug, PartialEq, Eq, Structural)]
pub enum DescriptorType {
    EfiReservedMemoryType,
    EfiLoaderCode,
    EfiLoaderData,
    EfiBootServicesCode,
    EfiBootServicesData,
    EfiRuntimeServicesCode,
    EfiRuntimeServicesData,
    EfiConventionalMemory,
    EfiUnusableMemory,
    EfiACPIReclaimMemory,
    EfiACPIMemoryNVS,
    EfiMemoryMappedIO,
    EfiMemoryMappedIOPortSpace,
    EfiPalCode,
    EfiPersistentMemory,
    EfiUnknown,
}

/// The descriptor type named by a raw firmware type code.
pub open spec fn spec_descriptor_type(t: u32) -> DescriptorType {
    if t == 0 {
        DescriptorType::EfiReservedMemoryType
    } else if t == 1 {
        DescriptorType::EfiLoaderCode
    } else if t == 2 {
        DescriptorType::EfiLoaderData
    } else if t == 3 {
        DescriptorType::EfiBootServicesCode
    } else if t == 4 {
        DescriptorType::EfiBootServicesData
    } else if t == 5 {
        DescriptorType::EfiRuntimeServicesCode
    } else if t == 6 {
        DescriptorType::EfiRuntimeServicesData
    } else if t == 7 {
        DescriptorType::EfiConventionalMemory
    } else if t == 8 {
        DescriptorType::EfiUnusableMemory
    } else if t == 9 {
        DescriptorType::EfiACPIReclaimMemory
    } else if t == 10 {
        DescriptorType::EfiACPIMemoryNVS
    } else if t == 11 {
        DescriptorType::EfiMemoryMappedIO
    } else if t == 12 {
        DescriptorType::EfiMemoryMappedIOPortSpace
    } else if t == 13 {
        DescriptorType::EfiPalCode
    } else if t == 14 {
        DescriptorType::EfiPersistentMemory
    } else {
        DescriptorType::EfiUnknown
    }
}

/// Whether a raw firmware type code names memory the allocator may ever
/// hand out: loader code and data, boot-services code and data,
/// conventional memory and ACPI-reclaim memory.
pub open spec fn spec_is_usable(t: u32) -> bool {
    t == 1 || t == 2 || t == 3 || t == 4 || t == 7 || t == 9
}

/// The base address of the page following a descriptor's range.
pub open spec fn spec_desc_max_phys(d: EfiMemoryDescriptor) -> int {
    d.phys_addr@ + d.num_pages * PAGE_SIZE
}

/// The highest end address over the first `n` descriptors that satisfy
/// `keep_all` or are usable.
pub open spec fn spec_max_phys_upto(s: Seq<EfiMemoryDescriptor>, n: int, usable_only: bool) -> int
    decreases n,
{
    if n <= 0 {
        0
    } else {
        let prev = spec_max_phys_upto(s, n - 1, usable_only);
        let d = s[n - 1];
        if (!usable_only || spec_is_usable(d.mem_type)) && spec_desc_max_phys(d) > prev {
            spec_desc_max_phys(d)
        } else {
            prev
        }
    }
}

/// The allocator state after unreserving the conventional ranges of the
/// first `n` descriptors, in order.
pub open spec fn spec_seed_upto(s: Seq<EfiMemoryDescriptor>, n: int, v: AllocatorView) -> AllocatorView
    decreases n,
{
    if n <= 0 {
        v
    } else {
        let prev = spec_seed_upto(s, n - 1, v);
        let d = s[n - 1];
        if spec_descriptor_type(d.mem_type) == DescriptorType::EfiConventionalMemory {
            spec_unreserve_pages(prev, d.phys_addr@, d.num_pages as int)
        } else {
            prev
        }
    }
}

/// Every descriptor's range ends inside the supported physical window,
/// so end addresses and page counts stay in machine range.
pub open spec fn spec_descriptors_bounded(s: Seq<EfiMemoryDescriptor>) -> bool {
    forall|i: int|
        0 <= i < s.len() ==> spec_desc_max_phys(#[trigger] s[i]) < 0x0800_0000_0000
}

impl EfiMemoryDescriptor {
    /// The byte length of this range.
    pub fn num_bytes(&self) -> (r: u64)
        requires
            self.num_pages * PAGE_SIZE <= u64::MAX,
        ensures
            r == self.num_pages * PAGE_SIZE,
    {
        self.num_pages * PAGE_SIZE
    }

    /// The base address of the page following this range.
    pub fn max_physical_address(&self) -> (r: PhysicalAddress)
        requires
            spec_desc_max_phys(*self) <= u64::MAX,
        ensures
            r@ == spec_desc_max_phys(*self),
    {
        self.phys_addr.increment_page_4kb(self.num_pages)
    }

    /// Whether the range is potentially usable memory (not reserved,
    /// not device mapped, not firmware owned).
    pub fn is_usable_memory(&self) -> (r: bool)
        ensures
            r == spec_is_usable(self.mem_type),
    {
        match self.mem_type() {
            DescriptorType::EfiLoaderCode => true,
            DescriptorType::EfiLoaderData => true,
            DescriptorType::EfiBootServicesCode => true,
            DescriptorType::EfiBootServicesData => true,
            DescriptorType::EfiConventionalMemory => true,
            DescriptorType::EfiACPIReclaimMemory => true,
            _ => false,
        }
    }

    /// The typed classification of this range.
    pub fn mem_type(&self) -> (r: DescriptorType)
        ensures
            r == spec_descriptor_type(self.mem_type),
    {
        match self.mem_type {
            0 => DescriptorType::EfiReservedMemoryType,
            1 => DescriptorType::EfiLoaderCode,
            2 => DescriptorType::EfiLoaderData,
            3 => DescriptorType::EfiBootServicesCode,
            4 => DescriptorType::EfiBootServicesData,
            5 => DescriptorType::EfiRuntimeServicesCode,
            6 => DescriptorType::EfiRuntimeServicesData,
            7 => DescriptorType::EfiConventionalMemory,
            8 => DescriptorType::EfiUnusableMemory,
            9 => DescriptorType::EfiACPIReclaimMemory,
            10 => DescriptorType::EfiACPIMemoryNVS,
            11 => DescriptorType::EfiMemoryMappedIO,
            12 => DescriptorType::EfiMemoryMappedIOPortSpace,
            13 => DescriptorType::EfiPalCode,
            14 => DescriptorType::EfiPersistentMemory,
            _ => DescriptorType::EfiUnknown,
        }
    }
}

/// The firmware memory map, held as owned descriptors beside the
/// physical location and page count of the buffer the firmware wrote
/// them to.
pub struct EfiMemoryMap {
    pub descriptors: Vec<EfiMemoryDescriptor>,
    pub descriptors_phys: PhysicalAddress,
    pub map_size: usize,
    pub descriptor_size: usize,
    pub num_pages: usize,
}

impl EfiMemoryMap {
    /// The descriptor at `index`, or an error past the end of the map.
    pub fn get_descriptor(&self, index: usize) -> (r: Result<EfiMemoryDescriptor, ()>)
        ensures
            match r {
                Result::Ok(d) => index < self.descriptors@.len() && d == self.descriptors@[
                    index as int
                ],
                Result::Err(_) => index >= self.descriptors@.len(),
            },
    {
        if index >= self.num_entries() {
            Err(())
        } else {
            Ok(self.descriptors[index])
        }
    }

    /// A cursor over the descriptors.
    pub fn iter(&self) -> (r: EfiMemoryMapIterator)
        ensures
            r@ == self.descriptors@,
            r.current_index() == 0,
            r.max_index() == self.descriptors@.len(),
    {
        let mut descriptors: Vec<EfiMemoryDescriptor> = Vec::new();
        let mut i: usize = 0;
        while i < self.descriptors.len()
            invariant
                i <= self.descriptors.len(),
                descriptors.len() == i,
                forall|j: int| 0 <= j < i ==> descriptors@[j] == self.descriptors@[j],
            decreases self.descriptors.len() - i,
        {
            descriptors.push(self.descriptors[i]);
            i = i + 1;
        }
        proof {
            assert(descriptors@ =~= self.descriptors@);
        }
        EfiMemoryMapIterator { descriptors, current_index: 0, max_index: i }
    }

    /// How many descriptors the map holds.
    pub fn num_entries(&self) -> (r: usize)
        ensures
            r == self.descriptors@.len(),
    {
        self.descriptors.len()
    }

    /// The number of pages from address zero up to the highest usable
    /// address.
    pub fn get_usable_memory_size_pages(&self) -> (r: u64)
        requires
            spec_descriptors_bounded(self.descriptors@),
        ensures
            r == spec_max_phys_upto(
                self.descriptors@,
                self.descriptors@.len() as int,
                true,
            ) / PAGE_SIZE as int,
            r < 0x8000_0000,
    {
        let max = self.max_usable_physical_address().as_u64();
        proof {
            vstd::arithmetic::div_mod::lemma_div_is_ordered(
                max as int,
                0x0800_0000_0000 - 1,
                PAGE_SIZE as int,
            );
        }
        max / PAGE_SIZE
    }

    /// The number of bytes from address zero up to the highest usable
    /// address, rounded down to whole pages.
    pub fn get_usable_memory_size_bytes(&self) -> (r: u64)
        requires
            spec_descriptors_bounded(self.descriptors@),
        ensures
            r == (spec_max_phys_upto(self.descriptors@, self.descriptors@.len() as int, true)
                / PAGE_SIZE as int) * PAGE_SIZE,
    {
        self.get_usable_memory_size_pages() * PAGE_SIZE
    }

    /// The base address of the page following the highest usable memory
    /// in the map.
    pub fn max_usable_physical_address(&self) -> (r: PhysicalAddress)
        requires
            spec_descriptors_bounded(self.descriptors@),
        ensures
            r@ == spec_max_phys_upto(self.descriptors@, self.descriptors@.len() as int, true),
            r@ < 0x0800_0000_0000,
    {
        self.max_physical_address_inner(true)
    }

    /// The base address of the page following the highest memory in the
    /// map, usable or not.
    pub fn max_physical_address(&self) -> (r: PhysicalAddress)
        requires
            spec_descriptors_bounded(self.descriptors@),
        ensures
            r@ == spec_max_phys_upto(self.descriptors@, self.descriptors@.len() as int, false),
            r@ < 0x0800_0000_0000,
    {
        self.max_physical_address_inner(false)
    }

    /// The shared scan behind the two maximum-address queries.
    fn max_physical_address_inner(&self, usable_only: bool) -> (r: PhysicalAddress)
        requires
            spec_descriptors_bounded(self.descriptors@),
        ensures
            r@ == spec_max_phys_upto(self.descriptors@, self.descriptors@.len() as int, usable_only),
            r@ < 0x0800_0000_0000,
    {
        let mut highest_address = PhysicalAddress::new(0);
        proof {
            assert(0u64 & 0x000F_FFFF_FFFF_F000 == 0) by (bit_vector);
        }
        let mut i: usize = 0;
        while i < self.descriptors.len()
            invariant
                i <= self.descriptors.len(),
                spec_descriptors_bounded(self.descriptors@),
                highest_address@ == spec_max_phys_upto(self.descriptors@, i as int, usable_only),
                highest_address@ < 0x0800_0000_0000,
            decreases self.descriptors.len() - i,
        {
            let descriptor = self.descriptors[i];
            let keep = if usable_only {
                descriptor.is_usable_memory()
            } else {
                true
            };
            if keep {
                let max_addr = descriptor.max_physical_address();
                if max_addr.as_u64() > highest_address.as_u64() {
                    highest_address = max_addr;
                }
            }
            i = i + 1;
        }
        highest_address
    }

    /// Seeds a frame allocator from this map: the bitmap covers every
    /// usable page and starts all reserved with the usable byte count in
    /// the reserved counter; the conventional ranges are then unreserved
    /// in map order. The bitmap is owned storage of the allocator, not
    /// placed inside the seeded region, so no page of the region is
    /// locked for it and every conventional page stays allocatable; a
    /// deliberate departure from placing the bitmap in the largest free
    /// segment and locking those pages.
    pub fn init_frame_allocator(&self) -> (r: PageFrameAllocator)
        requires
            spec_descriptors_bounded(self.descriptors@),
        ensures
            r.wf(),
            r@ == spec_seed_upto(
                self.descriptors@,
                self.descriptors@.len() as int,
                seed_start(self.descriptors@),
            ),
    {
        let memory_size_pages = self.get_usable_memory_size_pages();
        let mut bitmap_size: u64 = memory_size_pages / 8;
        if memory_size_pages % 8 > 0 {
            bitmap_size = bitmap_size + 1;
        }

        let bitmap = Bitmap::new_init(bitmap_size as usize, 0xFF);
        let usable_bytes = self.get_usable_memory_size_bytes();
        let mut output = PageFrameAllocator::new_from_bitmap(&bitmap, 0, usable_bytes, 0);
        proof {
            assert(output@.bytes =~= seed_start(self.descriptors@).bytes);
            assert(output@ == seed_start(self.descriptors@));
        }

        let mut i: usize = 0;
        while i < self.descriptors.len()
            invariant
                i <= self.descriptors.len(),
                spec_descriptors_bounded(self.descriptors@),
                output.wf(),
                output@ == spec_seed_upto(self.descriptors@, i as int, seed_start(self.descriptors@)),
            decreases self.descriptors.len() - i,
        {
            let current_descriptor = self.descriptors[i];
            match current_descriptor.mem_type() {
                DescriptorType::EfiConventionalMemory => {
                    output.unreserve_pages(
                        current_descriptor.phys_addr,
                        current_descriptor.num_pages as usize,
                    );
                },
                _ => {},
            }
            i = i + 1;
        }
        output
    }

    /// Hands the pages backing the firmware's descriptor buffer back to
    /// the allocator and empties the map.
    pub fn free_pages(&mut self, allocator: &mut PageFrameAllocator)
        requires
            old(allocator).wf(),
            old(self).descriptors_phys@ + old(self).num_pages * PAGE_SIZE <= u64::MAX,
        ensures
            final(allocator).wf(),
            final(allocator)@ == spec_free_pages(
                old(allocator)@,
                old(self).descriptors_phys@,
                old(self).num_pages as int,
            ),
            final(self).num_pages == 0,
            final(self).map_size == 0,
            final(self).descriptors@.len() == 0,
    {
        allocator.free_pages(self.descriptors_phys, self.num_pages);
        self.num_pages = 0;
        self.map_size = 0;
        self.descriptors = Vec::new();
    }
}

/// The seeding start state: an all-reserved bitmap covering the usable
/// pages, with every usable byte counted as reserved.
pub open spec fn seed_start(s: Seq<EfiMemoryDescriptor>) -> AllocatorView {
    let pages = spec_max_phys_upto(s, s.len() as int, true) / PAGE_SIZE as int;
    let size = if pages % 8 > 0 {
        pages / 8 + 1
    } else {
        pages / 8
    };
    AllocatorView {
        bytes: Seq::new(size as nat, |i: int| 0xFFu8),
        free: 0,
        reserved: ((pages * PAGE_SIZE) % 0x1_0000_0000_0000_0000) as u64,
        used: 0,
        cursor: 0,
    }
}

/// A cursor over a memory map's descriptors.
pub struct EfiMemoryMapIterator {
    descriptors: Vec<EfiMemoryDescriptor>,
    current_index: usize,
    max_index: usize,
}

impl View for EfiMemoryMapIterator {
    type V = Seq<EfiMemoryDescriptor>;

    closed spec fn view(&self) -> Seq<EfiMemoryDescriptor> {
        self.descriptors@
    }
}

impl EfiMemoryMapIterator {
    /// Where the cursor stands.
    pub closed spec fn current_index(&self) -> int {
        self.current_index as int
    }

    /// Where the cursor stops.
    pub closed spec fn max_index(&self) -> int {
        self.max_index as int
    }

    /// The next descriptor, or `None` when the cursor is done.
    pub fn next(&mut self) -> (r: Option<EfiMemoryDescriptor>)
        requires
            old(self).max_index() <= old(self)@.len(),
        ensures
            final(self)@ == old(self)@,
            final(self).max_index() == old(self).max_index(),
            old(self).current_index() >= old(self).max_index() ==> r is None
                && final(self).current_index() == old(self).current_index(),
            old(self).current_index() < old(self).max_index() ==> r == Some(
                old(self)@[old(self).current_index()],
            ) && final(self).current_index() == old(self).current_index() + 1,
    {
        if self.current_index >= self.max_index {
            None
        } else {
            let output = self.descriptors[self.current_index];
            self.current_index = self.current_index + 1;
            Some(output)
        }
    }
}

/// What a firmware memory-map query hands back: the map itself beside
/// the key that names this snapshot and the descriptor format version.
pub struct GetMemoryMapOutput {
    pub map: EfiMemoryMap,
    pub map_key: usize,
    pub descriptor_version: u32,
}

} // verus!
