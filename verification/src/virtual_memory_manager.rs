//! The virtual address-space and heap manager.
//!
//! A memory space is a page-table root with a heap cursor; the manager
//! owns one space. Growing the heap requests one physical frame per page
//! and maps each at consecutive virtual addresses from the current heap
//! end, eagerly, when the space is wired; shrinking is intentionally
//! unimplemented and leaves the heap end where it is.

use vstd::prelude::*;

use crate::address::PAGE_SIZE;
use crate::address::PhysicalAddress;
use crate::address::VirtualAddress;
use crate::page_frame_allocator::FrameAllocator;
use crate::page_table_manager::PageTableManager;

verus! {

/// One address space: a page-table root, whether heap pages are eagerly
/// backed, and the heap bounds. The heap only ever grows forward.
pub struct MemorySpace {
    pub p4_addr: PhysicalAddress,
    pub is_wired: bool,
    pub heap_base: VirtualAddress,
    pub heap_end: VirtualAddress,
}

impl MemorySpace {
    /// A space whose heap is empty: the heap end sits at the base.
    pub fn new(p4_addr: PhysicalAddress, is_wired: bool, heap_base: VirtualAddress) -> (r:
        MemorySpace)
        ensures
            r.p4_addr == p4_addr,
            r.is_wired == is_wired,
            r.heap_base == heap_base,
            r.heap_end == heap_base,
    {
        MemorySpace { p4_addr, is_wired, heap_base, heap_end: heap_base }
    }

    /// Rebinds the space to a new root and heap base, emptying the heap.
    pub fn reinit(&mut self, p4_addr: PhysicalAddress, is_wired: bool, heap_base: VirtualAddress)
        ensures
            final(self).p4_addr == p4_addr,
            final(self).is_wired == is_wired,
            final(self).heap_base == heap_base,
            final(self).heap_end == heap_base,
    {
        self.p4_addr = p4_addr;
        self.is_wired = is_wired;
        self.heap_base = heap_base;
        self.heap_end = heap_base;
    }

    /// Grows the heap by `page_increment` pages, backing each page with a
    /// fresh frame and mapping it when the space is wired, and returns
    /// the new heap end beside a success flag: on success every grown
    /// page of a wired space has a mapping in the final table. The heap
    /// end advances whether or not every mapping succeeded, as the
    /// cursor only ever moves forward. A zero increment is a pure query;
    /// a negative increment (shrink) is intentionally a no-op that
    /// returns the current heap end.
    pub fn alter_heap<A: FrameAllocator>(
        &mut self,
        page_table_manager: &mut PageTableManager,
        allocator: &mut A,
        page_increment: isize,
    ) -> (r: (VirtualAddress, bool))
        requires
            old(page_table_manager).inv(),
            old(page_table_manager).has_p4(),
            old(page_table_manager).spec_p4() == old(self).p4_addr@,
            old(allocator).wf(),
            old(page_table_manager).frames_not_free(old(allocator).free_frames()),
            old(self).heap_end@ + page_increment * PAGE_SIZE <= u64::MAX,
            page_increment * PAGE_SIZE <= 0x1_0000_0000_0000,
        ensures
            final(self).p4_addr == old(self).p4_addr,
            final(self).is_wired == old(self).is_wired,
            final(self).heap_base == old(self).heap_base,
            final(self).heap_end@ == (if page_increment > 0 {
                (old(self).heap_end@ + page_increment * PAGE_SIZE) as int
            } else {
                old(self).heap_end@ as int
            }),
            r.0 == final(self).heap_end,
            final(page_table_manager).inv(),
            final(page_table_manager).has_p4(),
            final(page_table_manager).spec_p4() == old(page_table_manager).spec_p4(),
            final(page_table_manager).spec_offset() == old(page_table_manager).spec_offset(),
            final(allocator).wf(),
            final(allocator).free_frames().subset_of(old(allocator).free_frames()),
            final(page_table_manager).frames_not_free(final(allocator).free_frames()),
            r.1 && old(self).is_wired ==> forall|k: int|
                0 <= k < page_increment ==> (#[trigger] final(page_table_manager).walk(
                    (old(self).heap_end@ + k * PAGE_SIZE) as u64,
                )) is Some,
            !old(self).is_wired || page_increment <= 0 ==> r.1,
    {
        if page_increment == 0 {
            return (self.heap_end, true);
        }

        let old_heap_end = self.heap_end;
        if page_increment > 0 {
            // Grow heap
            let mut ok = true;
            if self.is_wired {
                let mut page_no: usize = 0;
                while page_no < page_increment as usize
                    invariant
                        page_no <= page_increment as usize,
                        0 < page_increment,
                        page_table_manager.inv(),
                        page_table_manager.has_p4(),
                        page_table_manager.spec_p4() == old(page_table_manager).spec_p4(),
                        page_table_manager.spec_offset() == old(page_table_manager).spec_offset(),
                        allocator.wf(),
                        allocator.free_frames().subset_of(old(allocator).free_frames()),
                        page_table_manager.frames_not_free(allocator.free_frames()),
                        old_heap_end@ + page_increment * PAGE_SIZE <= u64::MAX,
                        page_increment * PAGE_SIZE <= 0x1_0000_0000_0000,
                        self.heap_end == old_heap_end,
                        ok ==> forall|k: int|
                            0 <= k < page_no ==> (#[trigger] page_table_manager.walk(
                                (old_heap_end@ + k * PAGE_SIZE) as u64,
                            )) is Some,
                    decreases page_increment as usize - page_no,
                {
                    let cur_virtual_addr = old_heap_end.increment_page_4kb(page_no as u64);
                    let ghost pre_free = allocator.free_frames();
                    let ghost pre_ptm = *page_table_manager;
                    let cur_phys_addr = allocator.request_page();
                    proof {
                        if cur_phys_addr@ == 0 {
                            assert(0u64 & !0x000F_FFFF_FFFF_F000 == 0) by (bit_vector);
                        }
                        page_table_manager.lemma_frames_not_free_mono(
                            pre_free,
                            allocator.free_frames(),
                        );
                    }
                    let mapped = page_table_manager.map_memory(
                        cur_virtual_addr,
                        cur_phys_addr,
                        allocator,
                    );
                    ok = ok && mapped;
                    proof {
                        if ok {
                            assert forall|k: int|
                                0 <= k < page_no + 1 implies (#[trigger] page_table_manager.walk(
                                (old_heap_end@ + k * PAGE_SIZE) as u64,
                            )) is Some by {
                                if k < page_no {
                                    let vk = (old_heap_end@ + k * PAGE_SIZE) as u64;
                                    assert(pre_ptm.walk(vk) is Some);
                                    crate::page_table_manager::lemma_distinct_page_paths(
                                        vk,
                                        cur_virtual_addr@,
                                    );
                                    assert(page_table_manager.walk(vk) == pre_ptm.walk(vk));
                                }
                            }
                        }
                    }
                    page_no = page_no + 1;
                }
            }

            self.heap_end = self.heap_end.increment_page_4kb(page_increment as u64);
            (self.heap_end, ok)
        } else {
            // Shrink is intentionally unimplemented: the heap only grows.
            (self.heap_end, true)
        }
    }
}

/// The manager owning the kernel's single memory space and the offset at
/// which physical memory is mapped into it.
pub struct VirtualMemoryManager {
    vmem0: MemorySpace,
    mapped_mem_offset: u64,
}

impl VirtualMemoryManager {
    /// The kernel space.
    pub closed spec fn spec_vmem0(&self) -> MemorySpace {
        self.vmem0
    }

    /// The physical-to-virtual mapping offset of the kernel space.
    pub closed spec fn spec_mapped_mem_offset(&self) -> u64 {
        self.mapped_mem_offset
    }

    /// A manager bound to nothing: root and heap at the zero address.
    pub fn new_uninit() -> (r: VirtualMemoryManager)
        ensures
            r.spec_mapped_mem_offset() == 0,
            r.spec_vmem0().p4_addr@ == 0,
            r.spec_vmem0().heap_end@ == 0,
    {
        proof {
            assert(0u64 & 0x000F_FFFF_FFFF_F000 == 0 && 0u64 & 0x0000_FFFF_FFFF_FFFF == 0 && 0u64
                & 0x0000_8000_0000_0000 == 0) by (bit_vector);
        }
        VirtualMemoryManager::new(0, PhysicalAddress::new(0), false, VirtualAddress::new(0))
    }

    /// A manager over a space rooted at `vmem0_p4_addr`. The space is
    /// always created wired, whatever `is_wired` says, as the heap has no
    /// lazy fault path to fall back on.
    pub fn new(
        mapped_mem_offset: u64,
        vmem0_p4_addr: PhysicalAddress,
        is_wired: bool,
        heap_base: VirtualAddress,
    ) -> (r: VirtualMemoryManager)
        ensures
            r.spec_mapped_mem_offset() == mapped_mem_offset,
            r.spec_vmem0().p4_addr == vmem0_p4_addr,
            r.spec_vmem0().is_wired == true,
            r.spec_vmem0().heap_base == heap_base,
            r.spec_vmem0().heap_end == heap_base,
    {
        VirtualMemoryManager {
            vmem0: MemorySpace::new(vmem0_p4_addr, true, heap_base),
            mapped_mem_offset,
        }
    }

    /// Rebinds the manager to a new offset, root and heap base.
    pub fn init(
        &mut self,
        mapped_mem_offset: u64,
        vmem0_p4_addr: PhysicalAddress,
        is_wired: bool,
        heap_base: VirtualAddress,
    )
        ensures
            final(self).spec_mapped_mem_offset() == mapped_mem_offset,
            final(self).spec_vmem0().p4_addr == vmem0_p4_addr,
            final(self).spec_vmem0().is_wired == is_wired,
            final(self).spec_vmem0().heap_base == heap_base,
            final(self).spec_vmem0().heap_end == heap_base,
    {
        self.mapped_mem_offset = mapped_mem_offset;
        self.vmem0.reinit(vmem0_p4_addr, is_wired, heap_base);
    }

    /// Grows or queries the heap of memory space `mem_space`; only space
    /// zero exists, and naming another space is a fatal caller error.
    pub fn alter_heap<A: FrameAllocator>(
        &mut self,
        mem_space: usize,
        page_table_manager: &mut PageTableManager,
        allocator: &mut A,
        page_increment: isize,
    ) -> (r: (VirtualAddress, bool))
        requires
            mem_space == 0,
            old(page_table_manager).inv(),
            old(page_table_manager).has_p4(),
            old(page_table_manager).spec_p4() == old(self).spec_vmem0().p4_addr@,
            old(allocator).wf(),
            old(page_table_manager).frames_not_free(old(allocator).free_frames()),
            old(self).spec_vmem0().heap_end@ + page_increment * PAGE_SIZE <= u64::MAX,
            page_increment * PAGE_SIZE <= 0x1_0000_0000_0000,
        ensures
            final(self).spec_mapped_mem_offset() == old(self).spec_mapped_mem_offset(),
            final(self).spec_vmem0().heap_end@ == (if page_increment > 0 {
                (old(self).spec_vmem0().heap_end@ + page_increment * PAGE_SIZE) as int
            } else {
                old(self).spec_vmem0().heap_end@ as int
            }),
            r.0 == final(self).spec_vmem0().heap_end,
            final(page_table_manager).inv(),
            final(page_table_manager).has_p4(),
            final(page_table_manager).spec_p4() == old(page_table_manager).spec_p4(),
            final(allocator).wf(),
            final(allocator).free_frames().subset_of(old(allocator).free_frames()),
            final(page_table_manager).frames_not_free(final(allocator).free_frames()),
            r.1 && old(self).spec_vmem0().is_wired ==> forall|k: int|
                0 <= k < page_increment ==> (#[trigger] final(page_table_manager).walk(
                    (old(self).spec_vmem0().heap_end@ + k * PAGE_SIZE) as u64,
                )) is Some,
            !old(self).spec_vmem0().is_wired || page_increment <= 0 ==> r.1,
    {
        self.vmem0.alter_heap(page_table_manager, allocator, page_increment)
    }
}

} // verus!
