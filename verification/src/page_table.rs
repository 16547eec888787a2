//! Raw 64-bit page-table entries and 512-entry page tables.
//!
//! An entry packs a physical frame address (bits 51:12) together with flag
//! bits; the accessors are bit-exact: setting the address never disturbs a
//! flag and setting a flag never disturbs the address.

use vstd::prelude::*;

use crate::address::PHYSICAL_ADDRESS_MASK;
use crate::address::PhysicalAddress;

verus! {

pub const PRESENT_FLAG: u64 = 1;

pub const READ_WRITE_FLAG: u64 = 2;

pub const PAGE_SIZE_FLAG: u64 = 128;

/// The present bit of a raw entry.
pub open spec fn entry_present(e: u64) -> bool {
    e & PRESENT_FLAG == PRESENT_FLAG
}

/// The read/write bit of a raw entry.
pub open spec fn entry_read_write(e: u64) -> bool {
    e & READ_WRITE_FLAG == READ_WRITE_FLAG
}

/// The page-size bit of a raw entry: set on a 1 GiB or 2 MiB leaf.
pub open spec fn entry_page_size(e: u64) -> bool {
    e & PAGE_SIZE_FLAG == PAGE_SIZE_FLAG
}

/// The physical-address field of a raw entry.
pub open spec fn entry_address(e: u64) -> u64 {
    e & PHYSICAL_ADDRESS_MASK
}

/// One 64-bit page-table entry.
#[derive(Clone, Copy, Debug, PartialEq, Eq, Structural)]
pub struct PageTableEntry {
    entry: u64,
}

impl View for PageTableEntry {
    type V = u64;

    closed spec fn view(&self) -> u64 {
        self.entry
    }
}

impl PageTableEntry {
    /// An entry with every bit clear.
    pub fn new_unused() -> (r: PageTableEntry)
        ensures
            r@ == 0,
    {
        PageTableEntry { entry: 0 }
    }

    #[inline]
    pub fn is_unused(&self) -> (r: bool)
        ensures
            r == (self@ == 0),
    {
        self.entry == 0
    }

    #[inline]
    pub fn make_unused(&mut self)
        ensures
            final(self)@ == 0,
    {
        self.entry = 0;
    }

    #[inline]
    pub fn present(&self) -> (r: bool)
        ensures
            r == entry_present(self@),
    {
        self.flags_active(PRESENT_FLAG)
    }

    #[inline]
    pub fn set_present(&mut self, value: bool)
        ensures
            final(self)@ == (if value {
                old(self)@ | PRESENT_FLAG
            } else {
                old(self)@ & !PRESENT_FLAG
            }),
            entry_present(final(self)@) == value,
            entry_read_write(final(self)@) == entry_read_write(old(self)@),
            entry_page_size(final(self)@) == entry_page_size(old(self)@),
            entry_address(final(self)@) == entry_address(old(self)@),
    {
        proof {
            lemma_flag_update_facts(self@, PRESENT_FLAG);
        }
        self.set_flags(PRESENT_FLAG, value)
    }

    #[inline]
    pub fn read_write(&self) -> (r: bool)
        ensures
            r == entry_read_write(self@),
    {
        self.flags_active(READ_WRITE_FLAG)
    }

    #[inline]
    pub fn set_read_write(&mut self, value: bool)
        ensures
            final(self)@ == (if value {
                old(self)@ | READ_WRITE_FLAG
            } else {
                old(self)@ & !READ_WRITE_FLAG
            }),
            entry_read_write(final(self)@) == value,
            entry_present(final(self)@) == entry_present(old(self)@),
            entry_page_size(final(self)@) == entry_page_size(old(self)@),
            entry_address(final(self)@) == entry_address(old(self)@),
    {
        proof {
            lemma_flag_update_facts(self@, READ_WRITE_FLAG);
        }
        self.set_flags(READ_WRITE_FLAG, value)
    }

    #[inline]
    pub fn page_size(&self) -> (r: bool)
        ensures
            r == entry_page_size(self@),
    {
        self.flags_active(PAGE_SIZE_FLAG)
    }

    #[inline]
    pub fn set_page_size(&mut self, value: bool)
        ensures
            final(self)@ == (if value {
                old(self)@ | PAGE_SIZE_FLAG
            } else {
                old(self)@ & !PAGE_SIZE_FLAG
            }),
            entry_page_size(final(self)@) == value,
            entry_present(final(self)@) == entry_present(old(self)@),
            entry_read_write(final(self)@) == entry_read_write(old(self)@),
            entry_address(final(self)@) == entry_address(old(self)@),
    {
        proof {
            lemma_flag_update_facts(self@, PAGE_SIZE_FLAG);
        }
        self.set_flags(PAGE_SIZE_FLAG, value)
    }

    /// The physical frame address stored in bits 51:12.
    #[inline]
    pub fn address(&self) -> (r: PhysicalAddress)
        ensures
            r@ == entry_address(self@),
    {
        proof {
            let e = self@;
            assert((e & 0x000F_FFFF_FFFF_F000) & 0x000F_FFFF_FFFF_F000 == e
                & 0x000F_FFFF_FFFF_F000) by (bit_vector);
        }
        PhysicalAddress::new(self.entry & PHYSICAL_ADDRESS_MASK)
    }

    /// Stores `addr` into the address field, leaving every flag bit as it
    /// was.
    #[inline]
    pub fn set_address(&mut self, addr: PhysicalAddress)
        requires
            addr@ & !PHYSICAL_ADDRESS_MASK == 0,
        ensures
            final(self)@ == (old(self)@ & !PHYSICAL_ADDRESS_MASK) | addr@,
            entry_address(final(self)@) == addr@,
            entry_present(final(self)@) == entry_present(old(self)@),
            entry_read_write(final(self)@) == entry_read_write(old(self)@),
            entry_page_size(final(self)@) == entry_page_size(old(self)@),
    {
        proof {
            lemma_address_update_facts(self@, addr@);
        }
        self.entry = (self.entry & !PHYSICAL_ADDRESS_MASK) | addr.as_u64();
    }

    #[inline]
    fn flags_active(&self, flags: u64) -> (r: bool)
        ensures
            r == (self@ & flags == flags),
    {
        (self.entry & flags) == flags
    }

    #[inline]
    fn set_flags(&mut self, flags: u64, value: bool)
        ensures
            final(self)@ == (if value {
                old(self)@ | flags
            } else {
                old(self)@ & !flags
            }),
    {
        if value {
            self.entry = self.entry | flags;
        } else {
            self.entry = self.entry & !flags;
        }
    }
}

/// Setting or clearing one flag leaves the other flags and the address
/// field unchanged, and masking the entry's address field reproduces it.
proof fn lemma_flag_update_facts(e: u64, f: u64)
    by (bit_vector)
    requires
        f == 1 || f == 2 || f == 128,
    ensures
        (e | f) & f == f,
        (e & !f) & f != f,
        f != 1 ==> (e | f) & 1 == e & 1 && (e & !f) & 1 == e & 1,
        f == 1 ==> (e | f) & 2 == e & 2 && (e & !f) & 2 == e & 2,
        f == 2 ==> (e | f) & 128 == e & 128 && (e & !f) & 128 == e & 128,
        f != 2 ==> (e | f) & 2 == e & 2 && (e & !f) & 2 == e & 2,
        f != 128 ==> (e | f) & 128 == e & 128 && (e & !f) & 128 == e & 128,
        (e | f) & 0x000F_FFFF_FFFF_F000 == e & 0x000F_FFFF_FFFF_F000,
        (e & !f) & 0x000F_FFFF_FFFF_F000 == e & 0x000F_FFFF_FFFF_F000,
{
}

/// Overwriting the address field with a value inside the mask stores it
/// exactly and leaves the flag bits unchanged.
proof fn lemma_address_update_facts(e: u64, a: u64)
    by (bit_vector)
    requires
        a & !0x000F_FFFF_FFFF_F000 == 0,
    ensures
        ((e & !0x000F_FFFF_FFFF_F000) | a) & 0x000F_FFFF_FFFF_F000 == a,
        ((e & !0x000F_FFFF_FFFF_F000) | a) & 1 == e & 1,
        ((e & !0x000F_FFFF_FFFF_F000) | a) & 2 == e & 2,
        ((e & !0x000F_FFFF_FFFF_F000) | a) & 128 == e & 128,
{
}

/// The all-zero entry has no flag set and the zero address.
pub proof fn lemma_unused_entry()
    by (bit_vector)
    ensures
        0u64 & 1 != 1,
        0u64 & 2 != 2,
        0u64 & 128 != 128,
        0u64 & 0x000F_FFFF_FFFF_F000 == 0,
{
}

/// A 4096-byte page interpreted as 512 page-table entries.
#[derive(Clone, Debug)]
pub struct PageTable {
    pub table: Vec<PageTableEntry>,
}

impl PageTable {
    /// A table is well formed when it holds exactly 512 entries.
    pub open spec fn wf(&self) -> bool {
        self.table.len() == 512
    }

    /// The raw entry words of this table.
    pub open spec fn entries(&self) -> Seq<u64> {
        self.table@.map_values(|e: PageTableEntry| e@)
    }

    /// A table with all 512 entries clear.
    pub fn new_unused() -> (r: PageTable)
        ensures
            r.wf(),
            forall|i: int| 0 <= i < 512 ==> r.entries()[i] == 0,
    {
        let mut table: Vec<PageTableEntry> = Vec::new();
        let mut i: usize = 0;
        while i < 512
            invariant
                i <= 512,
                table.len() == i,
                forall|j: int| 0 <= j < i ==> #[trigger] table@[j]@ == 0,
            decreases 512 - i,
        {
            table.push(PageTableEntry::new_unused());
            i = i + 1;
        }
        PageTable { table }
    }

    /// Clears every entry.
    pub fn make_unused(&mut self)
        requires
            old(self).wf(),
        ensures
            final(self).wf(),
            forall|i: int| 0 <= i < 512 ==> final(self).entries()[i] == 0,
    {
        let mut i: usize = 0;
        while i < 512
            invariant
                i <= 512,
                self.wf(),
                forall|j: int| 0 <= j < i ==> self.entries()[j] == 0,
            decreases 512 - i,
        {
            self.set_entry(i, PageTableEntry::new_unused());
            i = i + 1;
        }
    }

    /// Replaces this table's entries with a copy of another table's.
    pub fn copy_from(&mut self, other_page_table: &PageTable)
        requires
            other_page_table.wf(),
        ensures
            final(self).entries() =~= other_page_table.entries(),
            final(self).wf(),
    {
        let mut table: Vec<PageTableEntry> = Vec::new();
        let mut i: usize = 0;
        while i < other_page_table.table.len()
            invariant
                i <= other_page_table.table.len(),
                table.len() == i,
                forall|j: int| 0 <= j < i ==> table@[j] == other_page_table.table@[j],
            decreases other_page_table.table.len() - i,
        {
            table.push(other_page_table.table[i]);
            i = i + 1;
        }
        self.table = table;
        assert(self.table@ =~= other_page_table.table@);
    }

    /// Reads the entry at `index`.
    pub fn entry(&self, index: usize) -> (r: PageTableEntry)
        requires
            self.wf(),
            index < 512,
        ensures
            r@ == self.entries()[index as int],
    {
        self.table[index]
    }

    /// A copy of this table with the entry at `index` replaced.
    pub fn updated(&self, index: usize, entry: PageTableEntry) -> (r: PageTable)
        requires
            self.wf(),
            index < 512,
        ensures
            r.wf(),
            r.entries() =~= self.entries().update(index as int, entry@),
    {
        let mut r = PageTable { table: Vec::new() };
        r.copy_from(self);
        r.set_entry(index, entry);
        r
    }

    /// Writes the entry at `index`.
    pub fn set_entry(&mut self, index: usize, entry: PageTableEntry)
        requires
            old(self).wf(),
            index < 512,
        ensures
            final(self).wf(),
            final(self).entries() =~= old(self).entries().update(index as int, entry@),
    {
        self.table[index] = entry;
        assert(self.entries() =~= old(self).entries().update(index as int, entry@));
    }
}

} // verus!
