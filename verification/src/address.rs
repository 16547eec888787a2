//! Typed physical and virtual address wrappers.
//!
//! A `PhysicalAddress` keeps only the bits covered by the architectural
//! physical-address mask; a `VirtualAddress` is always canonical (bits 63:48
//! are the sign extension of bit 47). Constructors never fail: out-of-range
//! bits are masked away rather than rejected.

use vstd::prelude::*;

verus! {

pub const PAGE_SIZE: u64 = 4096;

pub const PHYSICAL_ADDRESS_MASK: u64 = 0x000F_FFFF_FFFF_F000;

pub const VIRTUAL_ADDRESS_MASK: u64 = 0x0000_FFFF_FFFF_FFFF;

pub const VIRTUAL_ADDRESS_SIGN_EXTENSION_MASK: u64 = 0xFFFF_0000_0000_0000;

pub const MAX_VIRTUAL_ADDRESS: u64 = 0xFFFF_FFFF_FFFF_FFFF;

pub const PAGE_OFFSET_MASK: u64 = 0xFFF;

pub const VIRTUAL_ADDRESS_HIGH_BIT: u64 = 0x0000_8000_0000_0000;

pub const PAGE_TABLE_INDEX_MASK: u64 = 0x1FF;

/// A virtual address is canonical when bits 63:48 are all equal to bit 47.
pub open spec fn is_canonical(addr: u64) -> bool {
    (addr & 0xFFFF_8000_0000_0000) == 0 || (addr & 0xFFFF_8000_0000_0000) == 0xFFFF_8000_0000_0000
}

/// The canonical address built from the low 48 bits of `addr`.
pub open spec fn canonicalize(addr: u64) -> u64 {
    if (addr & VIRTUAL_ADDRESS_MASK) & VIRTUAL_ADDRESS_HIGH_BIT != 0 {
        (addr & VIRTUAL_ADDRESS_MASK) | VIRTUAL_ADDRESS_SIGN_EXTENSION_MASK
    } else {
        addr & VIRTUAL_ADDRESS_MASK
    }
}

/// The 48-bit pattern assembled from four 9-bit page-table indices and a
/// 12-bit page offset, before canonicalization.
pub open spec fn combine_indexes(p4: u64, p3: u64, p2: u64, p1: u64, offset: u64) -> u64 {
    offset | ((p4 & PAGE_TABLE_INDEX_MASK) << 39) | ((p3 & PAGE_TABLE_INDEX_MASK) << 30)
        | ((p2 & PAGE_TABLE_INDEX_MASK) << 21) | ((p1 & PAGE_TABLE_INDEX_MASK) << 12)
}

/// A physical memory address, masked to the architectural physical range.
#[derive(Clone, Copy, Debug, PartialEq, Eq, Structural)]
pub struct PhysicalAddress(u64);

impl View for PhysicalAddress {
    type V = u64;

    closed spec fn view(&self) -> u64 {
        self.0
    }
}

impl PhysicalAddress {
    /// Builds an address from `addr`, clearing every bit outside the
    /// physical-address mask.
    #[inline]
    pub fn new(addr: u64) -> (r: PhysicalAddress)
        ensures
            r@ == addr & PHYSICAL_ADDRESS_MASK,
            r@ & !PHYSICAL_ADDRESS_MASK == 0,
    {
        proof {
            assert(addr & 0x000F_FFFF_FFFF_F000 & !0x000F_FFFF_FFFF_F000 == 0) by (bit_vector);
        }
        PhysicalAddress(addr & PHYSICAL_ADDRESS_MASK)
    }

    #[inline]
    pub fn as_u64(self) -> (r: u64)
        ensures
            r == self@,
    {
        self.0
    }

    #[inline]
    pub fn as_usize(self) -> (r: usize)
        ensures
            r == self@ as usize,
    {
        self.0 as usize
    }

    /// The address `num_pages` 4 KiB pages past this one.
    #[inline]
    pub fn increment_page_4kb(self, num_pages: u64) -> (r: PhysicalAddress)
        requires
            self@ + num_pages * PAGE_SIZE <= u64::MAX,
        ensures
            r@ == self@ + num_pages * PAGE_SIZE,
    {
        PhysicalAddress(self.as_u64() + num_pages * PAGE_SIZE)
    }

    /// The virtual address at which this physical address is visible when
    /// physical memory is mapped at `offset`.
    pub fn get_virtual_address_at_offset(&self, offset: u64) -> (r: VirtualAddress)
        requires
            self@ + offset <= u64::MAX,
        ensures
            r@ == canonicalize((self@ + offset) as u64),
    {
        VirtualAddress::new(self.0 + offset)
    }
}

/// A canonical virtual address.
#[derive(Clone, Copy, Debug, PartialEq, Eq, Structural)]
pub struct VirtualAddress(u64);

impl View for VirtualAddress {
    type V = u64;

    closed spec fn view(&self) -> u64 {
        self.0
    }
}

impl VirtualAddress {
    /// Builds a canonical address from the low 48 bits of `addr`,
    /// sign-extending bit 47 into bits 63:48.
    #[inline]
    pub fn new(addr: u64) -> (r: VirtualAddress)
        ensures
            r@ == canonicalize(addr),
            is_canonical(r@),
    {
        proof {
            lemma_canonicalize_is_canonical(addr);
        }
        let mut a = addr & VIRTUAL_ADDRESS_MASK;
        if a & VIRTUAL_ADDRESS_HIGH_BIT != 0 {
            a = a | VIRTUAL_ADDRESS_SIGN_EXTENSION_MASK;
        }
        VirtualAddress(a)
    }

    /// The exact inverse of index decomposition: rebuilds the address that
    /// has the given four page-table indices and page offset.
    #[inline]
    pub fn new_from_page_table_indexes(p4: u64, p3: u64, p2: u64, p1: u64, offset: u64) -> (r:
        VirtualAddress)
        ensures
            r@ == canonicalize(combine_indexes(p4, p3, p2, p1, offset)),
            is_canonical(r@),
    {
        let mut addr: u64 = offset;
        addr = addr | ((p4 & PAGE_TABLE_INDEX_MASK) << 39u64);
        addr = addr | ((p3 & PAGE_TABLE_INDEX_MASK) << 30u64);
        addr = addr | ((p2 & PAGE_TABLE_INDEX_MASK) << 21u64);
        addr = addr | ((p1 & PAGE_TABLE_INDEX_MASK) << 12u64);
        VirtualAddress::new(addr)
    }

    #[inline]
    pub fn as_u64(self) -> (r: u64)
        ensures
            r == self@,
    {
        self.0
    }

    #[inline]
    pub fn as_usize(self) -> (r: usize)
        ensures
            r == self@ as usize,
    {
        self.0 as usize
    }

    /// The address `num_pages` 4 KiB pages past this one.
    #[inline]
    pub fn increment_page_4kb(self, num_pages: u64) -> (r: VirtualAddress)
        requires
            self@ + num_pages * PAGE_SIZE <= u64::MAX,
        ensures
            r@ == self@ + num_pages * PAGE_SIZE,
    {
        VirtualAddress(self.as_u64() + num_pages * PAGE_SIZE)
    }

    /// The low 12 bits: the byte offset within the page.
    #[inline]
    pub fn page_offset(self) -> (r: u64)
        ensures
            r == self@ & PAGE_OFFSET_MASK,
            r < 4096,
    {
        proof {
            let a = self@;
            assert(a & 0xFFF < 4096) by (bit_vector);
        }
        self.0 & PAGE_OFFSET_MASK
    }

    /// The level-1 page-table index: bits 20:12.
    #[inline]
    pub fn p1_index(self) -> (r: usize)
        ensures
            r == (self@ >> 12) & PAGE_TABLE_INDEX_MASK,
            r < 512,
    {
        proof {
            lemma_index_extraction_bounds(self@);
        }
        ((self.0 & (PAGE_TABLE_INDEX_MASK << 12u64)) >> 12u64) as usize
    }

    /// The level-2 page-table index: bits 29:21.
    #[inline]
    pub fn p2_index(self) -> (r: usize)
        ensures
            r == (self@ >> 21) & PAGE_TABLE_INDEX_MASK,
            r < 512,
    {
        proof {
            lemma_index_extraction_bounds(self@);
        }
        ((self.0 & (PAGE_TABLE_INDEX_MASK << 21u64)) >> 21u64) as usize
    }

    /// The level-3 page-table index: bits 38:30.
    #[inline]
    pub fn p3_index(self) -> (r: usize)
        ensures
            r == (self@ >> 30) & PAGE_TABLE_INDEX_MASK,
            r < 512,
    {
        proof {
            lemma_index_extraction_bounds(self@);
        }
        ((self.0 & (PAGE_TABLE_INDEX_MASK << 30u64)) >> 30u64) as usize
    }

    /// The level-4 page-table index: bits 47:39.
    #[inline]
    pub fn p4_index(self) -> (r: usize)
        ensures
            r == (self@ >> 39) & PAGE_TABLE_INDEX_MASK,
            r < 512,
    {
        proof {
            lemma_index_extraction_bounds(self@);
        }
        ((self.0 & (PAGE_TABLE_INDEX_MASK << 39u64)) >> 39u64) as usize
    }
}

/// Canonicalization always yields a canonical address, and a canonical
/// address canonicalizes to itself.
pub proof fn lemma_canonicalize_is_canonical(addr: u64)
    ensures
        is_canonical(canonicalize(addr)),
        is_canonical(addr) ==> canonicalize(addr) == addr,
{
    assert(is_canonical(canonicalize(addr)) && (is_canonical(addr) ==> canonicalize(addr)
        == addr)) by (bit_vector);
}

/// Both masked-shift forms of index extraction agree, and every index is
/// below 512.
pub proof fn lemma_index_extraction_bounds(a: u64)
    by (bit_vector)
    ensures
        (a & (0x1FFu64 << 12)) >> 12 == (a >> 12) & 0x1FF,
        (a & (0x1FFu64 << 21)) >> 21 == (a >> 21) & 0x1FF,
        (a & (0x1FFu64 << 30)) >> 30 == (a >> 30) & 0x1FF,
        (a & (0x1FFu64 << 39)) >> 39 == (a >> 39) & 0x1FF,
        (a >> 12) & 0x1FF < 512,
        (a >> 21) & 0x1FF < 512,
        (a >> 30) & 0x1FF < 512,
        (a >> 39) & 0x1FF < 512,
{
}

/// Index decomposition round-trips: rebuilding a canonical address from its
/// four page-table indices and page offset yields the address itself.
pub proof fn lemma_index_round_trip(a: u64)
    requires
        is_canonical(a),
    ensures
        canonicalize(
            combine_indexes((a >> 39) & 0x1FF, (a >> 30) & 0x1FF, (a >> 21) & 0x1FF, (a >> 12)
                & 0x1FF, a & 0xFFF),
        ) == a,
{
    lemma_combine_canonicalize(a);
}

proof fn lemma_combine_canonicalize(a: u64)
    by (bit_vector)
    requires
        (a & 0xFFFF_8000_0000_0000) == 0 || (a & 0xFFFF_8000_0000_0000) == 0xFFFF_8000_0000_0000,
    ensures
        ({
            let c = (a & 0xFFF) | (((a >> 39) & 0x1FF & 0x1FF) << 39) | (((a >> 30) & 0x1FF & 0x1FF)
                << 30) | (((a >> 21) & 0x1FF & 0x1FF) << 21) | (((a >> 12) & 0x1FF & 0x1FF) << 12);
            &&& ((c & 0x0000_FFFF_FFFF_FFFF) & 0x0000_8000_0000_0000 != 0 ==> ((c
                & 0x0000_FFFF_FFFF_FFFF) | 0xFFFF_0000_0000_0000) == a)
            &&& ((c & 0x0000_FFFF_FFFF_FFFF) & 0x0000_8000_0000_0000 == 0 ==> (c
                & 0x0000_FFFF_FFFF_FFFF) == a)
        }),
{
}

} // verus!
