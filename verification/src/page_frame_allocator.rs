//! The bitmap-backed physical frame allocator.
//!
//! Bit `i` of the bitmap stands for page frame `i`: `1` means reserved or
//! used, `0` means free. `request_page` scans forward from the last
//! allocated page and claims the first clear bit; when no clear bit exists
//! from the cursor to the end it returns the zero address as a sentinel.
//! A page freed before the cursor rewinds the cursor, which is the only
//! mitigation for the forward-only scan; a clear bit before the cursor
//! without such a rewind stays invisible to allocation. This
//! allocation-order quirk is deliberate: the rest of the system depends
//! on the scan-forward-from-cursor policy.
//!
//! The three byte counters are bookkeeping that wraps modulo 2^64; their
//! sum modulo 2^64 is invariant under every operation.

use vstd::prelude::*;

use crate::address::PAGE_SIZE;
use crate::address::PHYSICAL_ADDRESS_MASK;
use crate::address::PhysicalAddress;
use crate::bitmap::Bitmap;
use crate::bitmap::lemma_map_set_get;
use crate::bitmap::spec_map_get;
use crate::bitmap::spec_map_set;

verus! {

/// A frame source: hands out whole 4 KiB page frames and takes them back.
///
/// `free_frames` is the set of frame base addresses the source may still
/// hand out. A returned non-zero frame always comes from that set and
/// leaves it; the zero address is the exhaustion sentinel and promises
/// nothing.
pub trait FrameAllocator: Sized {
    spec fn wf(&self) -> bool;

    spec fn free_frames(&self) -> Set<u64>;

    fn request_page(&mut self) -> (r: PhysicalAddress)
        requires
            old(self).wf(),
        ensures
            final(self).wf(),
            final(self).free_frames().subset_of(old(self).free_frames()),
            r@ != 0 ==> old(self).free_frames().contains(r@),
            r@ != 0 ==> !final(self).free_frames().contains(r@),
            r@ != 0 ==> r@ & !PHYSICAL_ADDRESS_MASK == 0,
            r@ != 0 ==> r@ % 4096 == 0,
    ;

    fn free_page(&mut self, address: PhysicalAddress)
        requires
            old(self).wf(),
            address@ & !PHYSICAL_ADDRESS_MASK == 0,
            address@ % 4096 == 0,
            !old(self).free_frames().contains(address@),
        ensures
            final(self).wf(),
            old(self).free_frames().subset_of(final(self).free_frames()),
            final(self).free_frames().subset_of(old(self).free_frames().insert(address@)),
    ;
}

/// Addition on a byte counter, wrapping modulo 2^64.
pub open spec fn counter_add(a: u64, b: u64) -> u64 {
    if a + b > u64::MAX {
        (a + b - 0x1_0000_0000_0000_0000) as u64
    } else {
        (a + b) as u64
    }
}

/// Subtraction on a byte counter, wrapping modulo 2^64.
pub open spec fn counter_sub(a: u64, b: u64) -> u64 {
    if a - b < 0 {
        (a - b + 0x1_0000_0000_0000_0000) as u64
    } else {
        (a - b) as u64
    }
}

/// The mathematical state of a frame allocator: the bitmap bytes, the
/// three byte counters and the scan cursor.
pub ghost struct AllocatorView {
    pub bytes: Seq<u8>,
    pub free: u64,
    pub reserved: u64,
    pub used: u64,
    pub cursor: int,
}

impl AllocatorView {
    /// The number of page-frame bits the bitmap covers.
    pub open spec fn num_pages(self) -> int {
        self.bytes.len() as int * 8
    }

    /// The sum of the three byte counters, modulo 2^64.
    pub open spec fn total_memory(self) -> int {
        (self.free + self.reserved + self.used) % 0x1_0000_0000_0000_0000
    }

    /// The frame base addresses whose bitmap bit is clear.
    pub open spec fn free_frames(self) -> Set<u64> {
        Set::new(
            |a: u64|
                a % 4096 == 0 && a / 4096 < self.num_pages() && !spec_map_get(
                    self.bytes,
                    a as int / 4096,
                ),
        )
    }
}

/// The first clear bit at or past `start`, scanning to the end of the map.
pub open spec fn find_free(bytes: Seq<u8>, start: int) -> Option<int>
    decreases bytes.len() * 8 - start,
{
    if start < 0 || start >= bytes.len() * 8 {
        None
    } else if !spec_map_get(bytes, start) {
        Some(start)
    } else {
        find_free(bytes, start + 1)
    }
}

/// Marks the page holding `addr` used: its bit goes from clear to set and
/// one page of memory moves from the free to the used counter. A page
/// whose bit is already set, or past the end of the map, is left alone.
pub open spec fn spec_lock_page(v: AllocatorView, addr: u64) -> AllocatorView {
    let pn = addr as int / 4096;
    if pn >= v.num_pages() || spec_map_get(v.bytes, pn) {
        v
    } else {
        AllocatorView {
            bytes: spec_map_set(v.bytes, pn, true),
            free: counter_sub(v.free, PAGE_SIZE),
            used: counter_add(v.used, PAGE_SIZE),
            ..v
        }
    }
}

/// Marks the page holding `addr` free again: its bit goes from set to
/// clear, one page moves from the used to the free counter, and the scan
/// cursor rewinds to the page if it lies before the cursor.
pub open spec fn spec_free_page(v: AllocatorView, addr: u64) -> AllocatorView {
    let pn = addr as int / 4096;
    if pn >= v.num_pages() || !spec_map_get(v.bytes, pn) {
        v
    } else {
        AllocatorView {
            bytes: spec_map_set(v.bytes, pn, false),
            free: counter_add(v.free, PAGE_SIZE),
            used: counter_sub(v.used, PAGE_SIZE),
            cursor: if v.cursor > pn {
                pn
            } else {
                v.cursor
            },
            ..v
        }
    }
}

/// Moves the page holding `addr` from free to reserved.
pub open spec fn spec_reserve_page(v: AllocatorView, addr: u64) -> AllocatorView {
    let pn = addr as int / 4096;
    if pn >= v.num_pages() || spec_map_get(v.bytes, pn) {
        v
    } else {
        AllocatorView {
            bytes: spec_map_set(v.bytes, pn, true),
            free: counter_sub(v.free, PAGE_SIZE),
            reserved: counter_add(v.reserved, PAGE_SIZE),
            ..v
        }
    }
}

/// Moves the page holding `addr` from reserved back to free, rewinding
/// the scan cursor when the page lies before it.
pub open spec fn spec_unreserve_page(v: AllocatorView, addr: u64) -> AllocatorView {
    let pn = addr as int / 4096;
    if pn >= v.num_pages() || !spec_map_get(v.bytes, pn) {
        v
    } else {
        AllocatorView {
            bytes: spec_map_set(v.bytes, pn, false),
            free: counter_add(v.free, PAGE_SIZE),
            reserved: counter_sub(v.reserved, PAGE_SIZE),
            cursor: if v.cursor > pn {
                pn
            } else {
                v.cursor
            },
            ..v
        }
    }
}

/// `count` single-page frees at consecutive page addresses from `addr` up.
pub open spec fn spec_free_pages(v: AllocatorView, addr: u64, count: int) -> AllocatorView
    decreases count,
{
    if count <= 0 {
        v
    } else {
        spec_free_pages(spec_free_page(v, addr), (addr + 4096) as u64, count - 1)
    }
}

/// `count` single-page locks at consecutive page addresses from `addr` up.
pub open spec fn spec_lock_pages(v: AllocatorView, addr: u64, count: int) -> AllocatorView
    decreases count,
{
    if count <= 0 {
        v
    } else {
        spec_lock_pages(spec_lock_page(v, addr), (addr + 4096) as u64, count - 1)
    }
}

/// `count` single-page reservations at consecutive page addresses.
pub open spec fn spec_reserve_pages(v: AllocatorView, addr: u64, count: int) -> AllocatorView
    decreases count,
{
    if count <= 0 {
        v
    } else {
        spec_reserve_pages(spec_reserve_page(v, addr), (addr + 4096) as u64, count - 1)
    }
}

/// `count` single-page unreservations at consecutive page addresses.
pub open spec fn spec_unreserve_pages(v: AllocatorView, addr: u64, count: int) -> AllocatorView
    decreases count,
{
    if count <= 0 {
        v
    } else {
        spec_unreserve_pages(spec_unreserve_page(v, addr), (addr + 4096) as u64, count - 1)
    }
}

/// The state after a `request_page` call: the first clear bit at or past
/// the cursor is claimed and becomes the new cursor; with no clear bit in
/// that range the state is unchanged.
pub open spec fn spec_request_page_state(v: AllocatorView) -> AllocatorView {
    match find_free(v.bytes, v.cursor) {
        Option::None => v,
        Option::Some(i) => AllocatorView {
            bytes: spec_map_set(v.bytes, i, true),
            free: counter_sub(v.free, PAGE_SIZE),
            used: counter_add(v.used, PAGE_SIZE),
            cursor: i,
            ..v
        },
    }
}

/// The address a `request_page` call returns: the base address of the
/// claimed page, or zero when no page was found.
pub open spec fn spec_request_page_result(v: AllocatorView) -> u64 {
    match find_free(v.bytes, v.cursor) {
        Option::None => 0,
        Option::Some(i) => (i * 4096) as u64,
    }
}

/// The bitmap-of-pages allocator proper, tracking free, reserved and used
/// byte counts beside the bitmap and the scan cursor.
pub struct PageFrameAllocatorInner {
    pub page_bitmap: Bitmap,
    free_memory: u64,
    reserved_memory: u64,
    used_memory: u64,
    last_allocated_page: usize,
}

impl View for PageFrameAllocatorInner {
    type V = AllocatorView;

    closed spec fn view(&self) -> AllocatorView {
        AllocatorView {
            bytes: self.page_bitmap@,
            free: self.free_memory,
            reserved: self.reserved_memory,
            used: self.used_memory,
            cursor: self.last_allocated_page as int,
        }
    }
}

impl PageFrameAllocatorInner {
    /// The bitmap is small enough that page numbers fit the machine word
    /// and page base addresses fit the physical-address mask.
    pub open spec fn wf(&self) -> bool {
        &&& self@.bytes.len() * 8 <= usize::MAX
        &&& self@.bytes.len() * 8 <= 0x100_0000_0000
    }

    /// An allocator with an empty bitmap: it tracks no memory and every
    /// request returns the sentinel.
    pub fn new_uninit() -> (r: PageFrameAllocatorInner)
        ensures
            r.wf(),
            r@.bytes =~= Seq::<u8>::empty(),
            r@.free == 0 && r@.reserved == 0 && r@.used == 0 && r@.cursor == 0,
    {
        PageFrameAllocatorInner {
            page_bitmap: Bitmap::new_uninit(),
            free_memory: 0,
            reserved_memory: 0,
            used_memory: 0,
            last_allocated_page: 0,
        }
    }

    /// Rebinds this allocator to a bitmap and fresh counter values,
    /// resetting the scan cursor.
    pub fn init(&mut self, page_bitmap: &Bitmap, free_memory: u64, reserved_memory: u64, used_memory: u64)
        requires
            page_bitmap@.len() * 8 <= usize::MAX,
            page_bitmap@.len() * 8 <= 0x100_0000_0000,
        ensures
            final(self).wf(),
            final(self)@.bytes == page_bitmap@,
            final(self)@.free == free_memory,
            final(self)@.reserved == reserved_memory,
            final(self)@.used == used_memory,
            final(self)@.cursor == 0,
    {
        self.page_bitmap = Bitmap::new(page_bitmap.get_buffer());
        self.free_memory = free_memory;
        self.reserved_memory = reserved_memory;
        self.used_memory = used_memory;
        self.last_allocated_page = 0;
    }

    /// The page number of `address`, clamped to the bitmap: `None` when
    /// the page lies past the end of the map.
    fn page_number_in_range(&self, address: PhysicalAddress) -> (r: Option<usize>)
        requires
            self.wf(),
        ensures
            match r {
                Option::Some(pn) => pn == address@ as int / 4096 && pn < self@.num_pages(),
                Option::None => address@ as int / 4096 >= self@.num_pages(),
            },
    {
        let page_number = address.as_u64() / PAGE_SIZE;
        let num_pages = (self.page_bitmap.size() as u64) * 8;
        if page_number >= num_pages {
            None
        } else {
            Some(page_number as usize)
        }
    }

    /// Marks the page holding `address` used (free to used transition).
    pub fn lock_page(&mut self, address: PhysicalAddress)
        requires
            old(self).wf(),
        ensures
            final(self).wf(),
            final(self)@ == spec_lock_page(old(self)@, address@),
            final(self)@.total_memory() == old(self)@.total_memory(),
    {
        proof {
            lemma_counter_exchange(self@.free, self@.used, self@.reserved, PAGE_SIZE);
        }
        match self.page_number_in_range(address) {
            Option::None => {},
            Option::Some(page_number) => {
                if self.page_bitmap.get(page_number) {
                } else {
                    let _ = self.page_bitmap.set(page_number, true);
                    self.free_memory = self.free_memory.wrapping_sub(PAGE_SIZE);
                    self.used_memory = self.used_memory.wrapping_add(PAGE_SIZE);
                }
            },
        }
    }

    /// Marks the page holding `address` free (used to free transition),
    /// rewinding the scan cursor when the page lies before it.
    pub fn free_page(&mut self, address: PhysicalAddress)
        requires
            old(self).wf(),
        ensures
            final(self).wf(),
            final(self)@ == spec_free_page(old(self)@, address@),
            final(self)@.total_memory() == old(self)@.total_memory(),
    {
        proof {
            lemma_counter_exchange(self@.used, self@.free, self@.reserved, PAGE_SIZE);
        }
        match self.page_number_in_range(address) {
            Option::None => {},
            Option::Some(page_number) => {
                if !self.page_bitmap.get(page_number) {
                } else {
                    let _ = self.page_bitmap.set(page_number, false);
                    self.free_memory = self.free_memory.wrapping_add(PAGE_SIZE);
                    self.used_memory = self.used_memory.wrapping_sub(PAGE_SIZE);
                    if self.last_allocated_page > page_number {
                        self.last_allocated_page = page_number;
                    }
                }
            },
        }
    }

    /// Moves the page holding `address` from free to reserved.
    pub fn reserve_page(&mut self, address: PhysicalAddress)
        requires
            old(self).wf(),
        ensures
            final(self).wf(),
            final(self)@ == spec_reserve_page(old(self)@, address@),
            final(self)@.total_memory() == old(self)@.total_memory(),
    {
        proof {
            lemma_counter_exchange(self@.free, self@.reserved, self@.used, PAGE_SIZE);
        }
        match self.page_number_in_range(address) {
            Option::None => {},
            Option::Some(page_number) => {
                if self.page_bitmap.get(page_number) {
                } else {
                    let _ = self.page_bitmap.set(page_number, true);
                    self.free_memory = self.free_memory.wrapping_sub(PAGE_SIZE);
                    self.reserved_memory = self.reserved_memory.wrapping_add(PAGE_SIZE);
                }
            },
        }
    }

    /// Moves the page holding `address` from reserved back to free,
    /// rewinding the scan cursor when the page lies before it.
    pub fn unreserve_page(&mut self, address: PhysicalAddress)
        requires
            old(self).wf(),
        ensures
            final(self).wf(),
            final(self)@ == spec_unreserve_page(old(self)@, address@),
            final(self)@.total_memory() == old(self)@.total_memory(),
    {
        proof {
            lemma_counter_exchange(self@.reserved, self@.free, self@.used, PAGE_SIZE);
        }
        match self.page_number_in_range(address) {
            Option::None => {},
            Option::Some(page_number) => {
                if !self.page_bitmap.get(page_number) {
                } else {
                    let _ = self.page_bitmap.set(page_number, false);
                    self.free_memory = self.free_memory.wrapping_add(PAGE_SIZE);
                    self.reserved_memory = self.reserved_memory.wrapping_sub(PAGE_SIZE);
                    if self.last_allocated_page > page_number {
                        self.last_allocated_page = page_number;
                    }
                }
            },
        }
    }

    /// Frees `page_count` consecutive pages starting at `address`.
    pub fn free_pages(&mut self, address: PhysicalAddress, page_count: usize)
        requires
            old(self).wf(),
            address@ + page_count * PAGE_SIZE <= u64::MAX,
        ensures
            final(self).wf(),
            final(self)@ == spec_free_pages(old(self)@, address@, page_count as int),
    {
        let mut i: usize = 0;
        while i < page_count
            invariant
                i <= page_count,
                self.wf(),
                address@ + page_count * PAGE_SIZE <= u64::MAX,
                spec_free_pages(old(self)@, address@, page_count as int) == spec_free_pages(
                    self@,
                    (address@ + i * PAGE_SIZE) as u64,
                    page_count - i,
                ),
            decreases page_count - i,
        {
            self.free_page(address.increment_page_4kb(i as u64));
            i = i + 1;
        }
    }

    /// Locks `page_count` consecutive pages starting at `address`.
    pub fn lock_pages(&mut self, address: PhysicalAddress, page_count: usize)
        requires
            old(self).wf(),
            address@ + page_count * PAGE_SIZE <= u64::MAX,
        ensures
            final(self).wf(),
            final(self)@ == spec_lock_pages(old(self)@, address@, page_count as int),
    {
        let mut i: usize = 0;
        while i < page_count
            invariant
                i <= page_count,
                self.wf(),
                address@ + page_count * PAGE_SIZE <= u64::MAX,
                spec_lock_pages(old(self)@, address@, page_count as int) == spec_lock_pages(
                    self@,
                    (address@ + i * PAGE_SIZE) as u64,
                    page_count - i,
                ),
            decreases page_count - i,
        {
            self.lock_page(address.increment_page_4kb(i as u64));
            i = i + 1;
        }
    }

    /// Reserves `page_count` consecutive pages starting at `address`.
    pub fn reserve_pages(&mut self, address: PhysicalAddress, page_count: usize)
        requires
            old(self).wf(),
            address@ + page_count * PAGE_SIZE <= u64::MAX,
        ensures
            final(self).wf(),
            final(self)@ == spec_reserve_pages(old(self)@, address@, page_count as int),
    {
        let mut i: usize = 0;
        while i < page_count
            invariant
                i <= page_count,
                self.wf(),
                address@ + page_count * PAGE_SIZE <= u64::MAX,
                spec_reserve_pages(old(self)@, address@, page_count as int) == spec_reserve_pages(
                    self@,
                    (address@ + i * PAGE_SIZE) as u64,
                    page_count - i,
                ),
            decreases page_count - i,
        {
            self.reserve_page(address.increment_page_4kb(i as u64));
            i = i + 1;
        }
    }

    /// Unreserves `page_count` consecutive pages starting at `address`.
    pub fn unreserve_pages(&mut self, address: PhysicalAddress, page_count: usize)
        requires
            old(self).wf(),
            address@ + page_count * PAGE_SIZE <= u64::MAX,
        ensures
            final(self).wf(),
            final(self)@ == spec_unreserve_pages(old(self)@, address@, page_count as int),
    {
        let mut i: usize = 0;
        while i < page_count
            invariant
                i <= page_count,
                self.wf(),
                address@ + page_count * PAGE_SIZE <= u64::MAX,
                spec_unreserve_pages(old(self)@, address@, page_count as int)
                    == spec_unreserve_pages(
                    self@,
                    (address@ + i * PAGE_SIZE) as u64,
                    page_count - i,
                ),
            decreases page_count - i,
        {
            self.unreserve_page(address.increment_page_4kb(i as u64));
            i = i + 1;
        }
    }

    /// Claims the first free page at or past the scan cursor. Returns the
    /// zero address when no free page exists in that range; a page freed
    /// before the cursor is found only after a cursor rewind.
    pub fn request_page(&mut self) -> (r: PhysicalAddress)
        requires
            old(self).wf(),
        ensures
            final(self).wf(),
            final(self)@ == spec_request_page_state(old(self)@),
            r@ == spec_request_page_result(old(self)@),
            final(self)@.total_memory() == old(self)@.total_memory(),
            r@ != 0 ==> spec_request_page_result(final(self)@) != r@,
    {
        proof {
            let v = self@;
            let v1 = spec_request_page_state(v);
            if spec_request_page_result(v) != 0 {
                assert(find_free(v.bytes, v.cursor) is Some);
                if find_free(v1.bytes, v1.cursor) is Some {
                    lemma_sequential_requests_distinct(v);
                    assert(spec_request_page_result(v1) != spec_request_page_result(v));
                } else {
                    assert(spec_request_page_result(v1) == 0);
                }
            }
        }
        let num_pages: usize = self.page_bitmap.size() * 8;
        let ghost v0 = self@;
        let mut index: usize = self.last_allocated_page;
        while index < num_pages
            invariant
                self == old(self),
                self.wf(),
                num_pages == self@.num_pages(),
                self@.cursor <= index,
                find_free(v0.bytes, v0.cursor) == find_free(self@.bytes, index as int),
                v0 == self@,
                spec_request_page_result(v0) != 0 ==> spec_request_page_result(
                    spec_request_page_state(v0),
                ) != spec_request_page_result(v0),
            decreases num_pages - index,
        {
            if !self.page_bitmap.get(index) {
                self.last_allocated_page = index;
                proof {
                    lemma_page_address_masked(index as u64);
                }
                let addr = PhysicalAddress::new((index as u64) * PAGE_SIZE);
                self.lock_page(addr);
                proof {
                    lemma_counter_exchange(v0.free, v0.used, v0.reserved, PAGE_SIZE);
                }
                return addr;
            }
            index = index + 1;
        }

        proof {
            assert(0u64 & 0x000F_FFFF_FFFF_F000 == 0) by (bit_vector);
        }
        PhysicalAddress::new(0)
    }

    pub fn get_free_ram(&self) -> (r: u64)
        ensures
            r == self@.free,
    {
        self.free_memory
    }

    pub fn get_used_ram(&self) -> (r: u64)
        ensures
            r == self@.used,
    {
        self.used_memory
    }

    pub fn get_reserved_ram(&self) -> (r: u64)
        ensures
            r == self@.reserved,
    {
        self.reserved_memory
    }
}

/// Moving one page's worth of bytes from one counter to another leaves
/// the modular sum of the three counters unchanged.
pub proof fn lemma_counter_exchange(from: u64, to: u64, other: u64, n: u64)
    ensures
        (counter_sub(from, n) + counter_add(to, n) + other) % 0x1_0000_0000_0000_0000 == (from + to
            + other) % 0x1_0000_0000_0000_0000,
{
    let m: int = 0x1_0000_0000_0000_0000;
    let s: int = from + to + other;
    if from - n < 0 && to + n > u64::MAX {
        assert(counter_sub(from, n) + counter_add(to, n) + other == s);
    } else if from - n < 0 {
        assert(counter_sub(from, n) + counter_add(to, n) + other == s + m);
        vstd::arithmetic::div_mod::lemma_mod_multiples_vanish(1, s, m);
    } else if to + n > u64::MAX {
        assert(counter_sub(from, n) + counter_add(to, n) + other == s - m);
        vstd::arithmetic::div_mod::lemma_mod_multiples_vanish(-1, s, m);
    } else {
        assert(counter_sub(from, n) + counter_add(to, n) + other == s);
    }
}

/// A page number below 2^40 yields a page base address inside the
/// physical-address mask.
proof fn lemma_page_address_masked(n: u64)
    by (bit_vector)
    requires
        n < 0x100_0000_0000,
    ensures
        ((n * 4096) as u64) & 0x000F_FFFF_FFFF_F000 == (n * 4096) as u64,
        ((n * 4096) as u64) & !0x000F_FFFF_FFFF_F000 == 0,
        (n * 4096) as u64 == n * 4096,
{
}

/// What the forward scan finds: a clear bit in range with every bit
/// between the start and it set, or the promise that every bit from the
/// start to the end of the map is set.
pub proof fn lemma_find_free_props(bytes: Seq<u8>, start: int)
    requires
        0 <= start,
    ensures
        match find_free(bytes, start) {
            Option::Some(i) => {
                &&& start <= i < bytes.len() * 8
                &&& !spec_map_get(bytes, i)
                &&& forall|j: int| start <= j < i ==> spec_map_get(bytes, j)
            },
            Option::None => forall|j: int|
                start <= j < bytes.len() * 8 ==> spec_map_get(bytes, j),
        },
    decreases bytes.len() * 8 - start,
{
    if start >= bytes.len() * 8 {
    } else if !spec_map_get(bytes, start) {
    } else {
        lemma_find_free_props(bytes, start + 1);
    }
}

/// Two sequential `request_page` transitions with no intervening free
/// never yield the same page: the first claim sets the page's bit, so the
/// second scan cannot stop on it.
pub proof fn lemma_sequential_requests_distinct(v: AllocatorView)
    requires
        0 <= v.cursor,
        v.bytes.len() * 8 <= 0x100_0000_0000,
        find_free(v.bytes, v.cursor) is Some,
        find_free(spec_request_page_state(v).bytes, spec_request_page_state(v).cursor) is Some,
    ensures
        spec_request_page_result(v) != spec_request_page_result(spec_request_page_state(v)),
{
    let i0 = find_free(v.bytes, v.cursor)->Some_0;
    let v1 = spec_request_page_state(v);
    let i1 = find_free(v1.bytes, v1.cursor)->Some_0;
    lemma_find_free_props(v.bytes, v.cursor);
    lemma_find_free_props(v1.bytes, v1.cursor);
    lemma_map_set_get(v.bytes, i0, true);
    assert(spec_map_get(v1.bytes, i0));
    assert(i0 != i1);
}

/// Freeing a tracked page and then requesting one always succeeds: the
/// scan cursor rewinds to the freed page or earlier, so the scan sees at
/// least that page. When page zero is still marked and the freed page is
/// not page zero, the returned address is moreover not the zero sentinel.
pub proof fn lemma_free_then_request_succeeds(v: AllocatorView, addr: u64)
    requires
        0 <= v.cursor,
        v.bytes.len() * 8 <= 0x100_0000_0000,
        spec_map_get(v.bytes, addr as int / 4096),
    ensures
        find_free(spec_free_page(v, addr).bytes, spec_free_page(v, addr).cursor) is Some,
        (addr as int / 4096 != 0 && spec_map_get(v.bytes, 0)) ==> spec_request_page_result(
            spec_free_page(v, addr),
        ) != 0,
{
    let pn = addr as int / 4096;
    let v1 = spec_free_page(v, addr);
    assert(pn < v.num_pages());
    lemma_map_set_get(v.bytes, pn, false);
    assert(!spec_map_get(v1.bytes, pn));
    lemma_find_free_props(v1.bytes, v1.cursor);
    match find_free(v1.bytes, v1.cursor) {
        Option::Some(i1) => {
            if pn != 0 && spec_map_get(v.bytes, 0) {
                assert(spec_map_get(v1.bytes, 0));
                assert(i1 != 0);
            }
        },
        Option::None => {
            assert(v1.cursor <= pn < v1.bytes.len() * 8);
            assert(spec_map_get(v1.bytes, pn));
            assert(false);
        },
    }
}

/// How a `request_page` transition acts on the set of free frames: the
/// set only shrinks, and a non-zero result is a frame that was free
/// before the call, is free no longer, and lies inside the
/// physical-address mask.
pub proof fn lemma_request_page_free_frames(v: AllocatorView)
    requires
        0 <= v.cursor,
        v.bytes.len() * 8 <= 0x100_0000_0000,
    ensures
        spec_request_page_state(v).free_frames().subset_of(v.free_frames()),
        spec_request_page_result(v) != 0 ==> v.free_frames().contains(spec_request_page_result(v)),
        spec_request_page_result(v) != 0 ==> !spec_request_page_state(v).free_frames().contains(
            spec_request_page_result(v),
        ),
        spec_request_page_result(v) != 0 ==> spec_request_page_result(v)
            & !PHYSICAL_ADDRESS_MASK == 0,
        spec_request_page_result(v) != 0 ==> spec_request_page_result(v) % 4096 == 0,
{
    lemma_find_free_props(v.bytes, v.cursor);
    match find_free(v.bytes, v.cursor) {
        Option::None => {},
        Option::Some(i) => {
            let r = spec_request_page_result(v);
            let v1 = spec_request_page_state(v);
            lemma_page_address_masked(i as u64);
            assert(r == i * 4096);
            lemma_map_set_get(v.bytes, i, true);
            assert(r as int / 4096 == i);
            assert(r % 4096 == 0);
            assert(v.free_frames().contains(r));
            assert(spec_map_get(v1.bytes, i));
            assert(!v1.free_frames().contains(r));
            assert forall|a: u64| v1.free_frames().contains(a) implies v.free_frames().contains(
                a,
            ) by {
                assert(a as int / 4096 != i);
                assert(spec_map_get(v1.bytes, a as int / 4096) == spec_map_get(
                    v.bytes,
                    a as int / 4096,
                ));
            }
        },
    }
}

/// How a `free_page` transition acts on the set of free frames when the
/// freed address is page aligned and not already free: no frame is lost,
/// and at most the freed frame is gained.
pub proof fn lemma_free_page_free_frames(v: AllocatorView, addr: u64)
    requires
        addr % 4096 == 0,
        !v.free_frames().contains(addr),
    ensures
        v.free_frames().subset_of(spec_free_page(v, addr).free_frames()),
        spec_free_page(v, addr).free_frames().subset_of(v.free_frames().insert(addr)),
{
    let pn = addr as int / 4096;
    let v1 = spec_free_page(v, addr);
    vstd::arithmetic::div_mod::lemma_fundamental_div_mod(addr as int, 4096);
    assert(addr == pn * 4096);
    if pn >= v.num_pages() || !spec_map_get(v.bytes, pn) {
        assert(v1 == v);
    } else {
        lemma_map_set_get(v.bytes, pn, false);
        assert forall|a: u64| v.free_frames().contains(a) implies v1.free_frames().contains(a) by {
            assert(a as int / 4096 != pn);
        }
        assert forall|a: u64| v1.free_frames().contains(a) implies v.free_frames().insert(
            addr,
        ).contains(a) by {
            if a as int / 4096 == pn {
                vstd::arithmetic::div_mod::lemma_fundamental_div_mod(a as int, 4096);
                assert(a == addr);
            } else {
                assert(spec_map_get(v1.bytes, a as int / 4096) == spec_map_get(
                    v.bytes,
                    a as int / 4096,
                ));
            }
        }
    }
}

/// The explicitly owned frame allocator. In a setting with concurrent
/// callers the inner state sits behind a mutual-exclusion lock; here the
/// caller's exclusive borrow plays that role.
pub struct PageFrameAllocator {
    inner: PageFrameAllocatorInner,
}

impl View for PageFrameAllocator {
    type V = AllocatorView;

    closed spec fn view(&self) -> AllocatorView {
        self.inner@
    }
}

impl PageFrameAllocator {
    /// See `PageFrameAllocatorInner::wf`.
    pub open spec fn wf(&self) -> bool {
        &&& self@.bytes.len() * 8 <= usize::MAX
        &&& self@.bytes.len() * 8 <= 0x100_0000_0000
        &&& 0 <= self@.cursor
    }

    /// An allocator over the given bitmap and counter seed values, with
    /// the scan cursor at page zero.
    pub fn new_from_bitmap(
        page_bitmap: &Bitmap,
        free_memory: u64,
        reserved_memory: u64,
        used_memory: u64,
    ) -> (r: PageFrameAllocator)
        requires
            page_bitmap@.len() * 8 <= usize::MAX,
            page_bitmap@.len() * 8 <= 0x100_0000_0000,
        ensures
            r.wf(),
            r@.bytes == page_bitmap@,
            r@.free == free_memory,
            r@.reserved == reserved_memory,
            r@.used == used_memory,
            r@.cursor == 0,
    {
        let mut inner = PageFrameAllocatorInner::new_uninit();
        inner.init(page_bitmap, free_memory, reserved_memory, used_memory);
        PageFrameAllocator { inner }
    }

    /// An allocator that tracks no memory yet; `init` binds it to a
    /// bitmap.
    pub fn new_uninit() -> (r: PageFrameAllocator)
        ensures
            r.wf(),
            r@.bytes =~= Seq::<u8>::empty(),
            r@.free == 0 && r@.reserved == 0 && r@.used == 0 && r@.cursor == 0,
    {
        PageFrameAllocator { inner: PageFrameAllocatorInner::new_uninit() }
    }

    /// Rebinds the allocator to a bitmap and fresh counters.
    pub fn init(
        &mut self,
        page_bitmap: &Bitmap,
        free_memory: u64,
        reserved_memory: u64,
        used_memory: u64,
    )
        requires
            page_bitmap@.len() * 8 <= usize::MAX,
            page_bitmap@.len() * 8 <= 0x100_0000_0000,
        ensures
            final(self).wf(),
            final(self)@.bytes == page_bitmap@,
            final(self)@.free == free_memory,
            final(self)@.reserved == reserved_memory,
            final(self)@.used == used_memory,
            final(self)@.cursor == 0,
    {
        self.inner.init(page_bitmap, free_memory, reserved_memory, used_memory);
    }

    /// A copy of the page bitmap.
    pub fn page_bitmap(&self) -> (r: Bitmap)
        ensures
            r@ == self@.bytes,
    {
        Bitmap::new(self.inner.page_bitmap.get_buffer())
    }

    pub fn get_free_ram(&self) -> (r: u64)
        ensures
            r == self@.free,
    {
        self.inner.get_free_ram()
    }

    pub fn get_used_ram(&self) -> (r: u64)
        ensures
            r == self@.used,
    {
        self.inner.get_used_ram()
    }

    pub fn get_reserved_ram(&self) -> (r: u64)
        ensures
            r == self@.reserved,
    {
        self.inner.get_reserved_ram()
    }

    /// Frees `page_count` consecutive pages starting at `address`.
    pub fn free_pages(&mut self, address: PhysicalAddress, page_count: usize)
        requires
            old(self).wf(),
            address@ + page_count * PAGE_SIZE <= u64::MAX,
        ensures
            final(self).wf(),
            final(self)@ == spec_free_pages(old(self)@, address@, page_count as int),
    {
        self.inner.free_pages(address, page_count);
        proof {
            lemma_free_pages_cursor(old(self)@, address@, page_count as int);
        }
    }

    /// Marks the page holding `address` used.
    pub fn lock_page(&mut self, address: PhysicalAddress)
        requires
            old(self).wf(),
        ensures
            final(self).wf(),
            final(self)@ == spec_lock_page(old(self)@, address@),
            final(self)@.total_memory() == old(self)@.total_memory(),
    {
        self.inner.lock_page(address);
    }

    /// Locks `page_count` consecutive pages starting at `address`.
    pub fn lock_pages(&mut self, address: PhysicalAddress, page_count: usize)
        requires
            old(self).wf(),
            address@ + page_count * PAGE_SIZE <= u64::MAX,
        ensures
            final(self).wf(),
            final(self)@ == spec_lock_pages(old(self)@, address@, page_count as int),
    {
        self.inner.lock_pages(address, page_count);
        proof {
            lemma_lock_pages_cursor(old(self)@, address@, page_count as int);
        }
    }

    /// Moves the page holding `address` from reserved back to free.
    pub fn unreserve_page(&mut self, address: PhysicalAddress)
        requires
            old(self).wf(),
        ensures
            final(self).wf(),
            final(self)@ == spec_unreserve_page(old(self)@, address@),
            final(self)@.total_memory() == old(self)@.total_memory(),
    {
        self.inner.unreserve_page(address);
    }

    /// Unreserves `page_count` consecutive pages starting at `address`.
    pub fn unreserve_pages(&mut self, address: PhysicalAddress, page_count: usize)
        requires
            old(self).wf(),
            address@ + page_count * PAGE_SIZE <= u64::MAX,
        ensures
            final(self).wf(),
            final(self)@ == spec_unreserve_pages(old(self)@, address@, page_count as int),
    {
        self.inner.unreserve_pages(address, page_count);
        proof {
            lemma_unreserve_pages_cursor(old(self)@, address@, page_count as int);
        }
    }

    /// Moves the page holding `address` from free to reserved.
    pub fn reserve_page(&mut self, address: PhysicalAddress)
        requires
            old(self).wf(),
        ensures
            final(self).wf(),
            final(self)@ == spec_reserve_page(old(self)@, address@),
            final(self)@.total_memory() == old(self)@.total_memory(),
    {
        self.inner.reserve_page(address);
    }

    /// Reserves `page_count` consecutive pages starting at `address`.
    pub fn reserve_pages(&mut self, address: PhysicalAddress, page_count: usize)
        requires
            old(self).wf(),
            address@ + page_count * PAGE_SIZE <= u64::MAX,
        ensures
            final(self).wf(),
            final(self)@ == spec_reserve_pages(old(self)@, address@, page_count as int),
    {
        self.inner.reserve_pages(address, page_count);
        proof {
            lemma_reserve_pages_cursor(old(self)@, address@, page_count as int);
        }
    }
}

impl FrameAllocator for PageFrameAllocator {
    open spec fn wf(&self) -> bool {
        PageFrameAllocator::wf(self)
    }

    open spec fn free_frames(&self) -> Set<u64> {
        self@.free_frames()
    }

    /// Claims the first free page at or past the scan cursor; the zero
    /// address is the exhaustion sentinel.
    fn request_page(&mut self) -> (r: PhysicalAddress)
        ensures
            final(self)@ == spec_request_page_state(old(self)@),
            r@ == spec_request_page_result(old(self)@),
            final(self)@.total_memory() == old(self)@.total_memory(),
            r@ != 0 ==> spec_request_page_result(final(self)@) != r@,
    {
        proof {
            lemma_request_page_free_frames(self@);
        }
        self.inner.request_page()
    }

    /// Marks the page holding `address` free again.
    fn free_page(&mut self, address: PhysicalAddress)
        ensures
            final(self)@ == spec_free_page(old(self)@, address@),
            final(self)@.total_memory() == old(self)@.total_memory(),
    {
        proof {
            lemma_free_page_free_frames(self@, address@);
        }
        self.inner.free_page(address);
    }
}

/// Bulk frees leave the cursor at or below where it started.
proof fn lemma_free_pages_cursor(v: AllocatorView, addr: u64, count: int)
    ensures
        spec_free_pages(v, addr, count).cursor <= v.cursor,
        spec_free_pages(v, addr, count).bytes.len() == v.bytes.len(),
        0 <= v.cursor ==> 0 <= spec_free_pages(v, addr, count).cursor,
    decreases count,
{
    if count > 0 {
        lemma_free_pages_cursor(spec_free_page(v, addr), (addr + 4096) as u64, count - 1);
    }
}

/// Bulk locks do not move the cursor or resize the bitmap.
proof fn lemma_lock_pages_cursor(v: AllocatorView, addr: u64, count: int)
    ensures
        spec_lock_pages(v, addr, count).cursor == v.cursor,
        spec_lock_pages(v, addr, count).bytes.len() == v.bytes.len(),
    decreases count,
{
    if count > 0 {
        lemma_lock_pages_cursor(spec_lock_page(v, addr), (addr + 4096) as u64, count - 1);
    }
}

/// Bulk reservations do not move the cursor or resize the bitmap.
proof fn lemma_reserve_pages_cursor(v: AllocatorView, addr: u64, count: int)
    ensures
        spec_reserve_pages(v, addr, count).cursor == v.cursor,
        spec_reserve_pages(v, addr, count).bytes.len() == v.bytes.len(),
    decreases count,
{
    if count > 0 {
        lemma_reserve_pages_cursor(spec_reserve_page(v, addr), (addr + 4096) as u64, count - 1);
    }
}

/// Bulk unreservations leave the cursor at or below where it started.
proof fn lemma_unreserve_pages_cursor(v: AllocatorView, addr: u64, count: int)
    ensures
        spec_unreserve_pages(v, addr, count).cursor <= v.cursor,
        spec_unreserve_pages(v, addr, count).bytes.len() == v.bytes.len(),
        0 <= v.cursor ==> 0 <= spec_unreserve_pages(v, addr, count).cursor,
    decreases count,
{
    if count > 0 {
        lemma_unreserve_pages_cursor(spec_unreserve_page(v, addr), (addr + 4096) as u64, count - 1);
    }
}

} // verus!
