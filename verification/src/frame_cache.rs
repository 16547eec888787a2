//! The kernel's frame cache: a fixed-capacity ring of pre-fetched frames
//! fronting the temporary bitmap allocator.
//!
//! `request_page` pops a cached frame and refills the ring from the
//! backing allocator when it runs empty; `free_page` pushes the frame
//! back into the ring and falls back to freeing it directly through the
//! backing allocator when the ring is full, so no frame is ever lost.
//! Under concurrent callers the ring runs lock free and only the refill
//! takes a lock; under an exclusive borrow the borrow serialises both.

use vstd::prelude::*;

use crate::address::PAGE_SIZE;
use crate::address::PHYSICAL_ADDRESS_MASK;
use crate::address::PhysicalAddress;
use crate::bitmap::spec_map_get;
use crate::page_frame_allocator::AllocatorView;
use crate::page_frame_allocator::FrameAllocator;
use crate::page_frame_allocator::PageFrameAllocator;
use crate::page_frame_allocator::spec_free_page;
use crate::page_frame_allocator::spec_free_pages;
use crate::page_frame_allocator::spec_request_page_result;
use crate::page_frame_allocator::spec_request_page_state;
use crate::page_frame_allocator::lemma_request_page_free_frames;
use crate::ringbuffer::RingBuffer;

verus! {

/// The allocator state after `n` consecutive `request_page` calls.
pub open spec fn spec_bulk_state(v: AllocatorView, n: int) -> AllocatorView
    decreases n,
{
    if n <= 0 {
        v
    } else {
        spec_bulk_state(spec_request_page_state(v), n - 1)
    }
}

/// The addresses `n` consecutive `request_page` calls return, in order.
pub open spec fn spec_bulk_results(v: AllocatorView, n: int) -> Seq<u64>
    decreases n,
{
    if n <= 0 {
        Seq::<u64>::empty()
    } else {
        seq![spec_request_page_result(v)] + spec_bulk_results(spec_request_page_state(v), n - 1)
    }
}

/// Peeling one step off a bulk allocation: the `i`-th result is what a
/// single request returns from the `i`-th intermediate state.
pub proof fn lemma_bulk_peel(v: AllocatorView, i: int, n: int)
    requires
        0 <= i < n,
    ensures
        spec_bulk_results(v, n).len() == n,
        spec_bulk_results(v, n)[i] == spec_request_page_result(spec_bulk_state(v, i)),
        spec_bulk_state(v, i + 1) == spec_request_page_state(spec_bulk_state(v, i)),
    decreases i,
{
    lemma_bulk_len(v, n);
    if i == 0 {
        assert(spec_bulk_state(v, 1) == spec_bulk_state(spec_request_page_state(v), 0));
        assert(spec_bulk_state(spec_request_page_state(v), 0) == spec_request_page_state(v));
        assert(spec_bulk_state(v, 0) == v);
    } else {
        lemma_bulk_peel(spec_request_page_state(v), i - 1, n - 1);
        assert(spec_bulk_state(v, i) == spec_bulk_state(spec_request_page_state(v), i - 1));
        assert(spec_bulk_state(v, i + 1) == spec_bulk_state(spec_request_page_state(v), i));
        assert(spec_bulk_results(v, n)[i] == spec_bulk_results(spec_request_page_state(v), n - 1)[
            i - 1
        ]);
    }
}

/// A bulk allocation returns one address per request.
proof fn lemma_bulk_len(v: AllocatorView, n: int)
    requires
        n >= 0,
    ensures
        spec_bulk_results(v, n).len() == n,
    decreases n,
{
    if n > 0 {
        lemma_bulk_len(spec_request_page_state(v), n - 1);
    }
}

/// The allocator well-formedness bounds survive any request transition.
proof fn lemma_request_preserves_bounds(v: AllocatorView)
    requires
        0 <= v.cursor,
        v.bytes.len() * 8 <= usize::MAX,
        v.bytes.len() * 8 <= 0x100_0000_0000,
    ensures
        0 <= spec_request_page_state(v).cursor,
        spec_request_page_state(v).bytes.len() == v.bytes.len(),
{
    crate::page_frame_allocator::lemma_find_free_props(v.bytes, v.cursor);
}

/// The temporary allocator behind the cache: the bitmap allocator the
/// kernel re-seeds from the handoff bitmap, wrapped for bulk allocation.
pub struct TempAllocWrapper {
    pub alloc: PageFrameAllocator,
}

/// Wraps a seeded bitmap allocator for use as the cache's frame source.
pub fn get_temp_allocator(alloc: PageFrameAllocator) -> (r: TempAllocWrapper)
    ensures
        r.alloc == alloc,
{
    TempAllocWrapper { alloc }
}

impl TempAllocWrapper {
    /// Fills `store[0..count]` with one requested page each and reports
    /// how many were filled; exhaustion shows up as zero addresses among
    /// the results, never as a short count.
    pub fn bulk_alloc(&mut self, store: &mut Vec<PhysicalAddress>, count: usize) -> (r: usize)
        requires
            old(self).alloc.wf(),
            count <= old(store).len(),
        ensures
            r == count,
            final(self).alloc.wf(),
            final(self).alloc@ == spec_bulk_state(old(self).alloc@, count as int),
            final(store).len() == old(store).len(),
            forall|i: int|
                0 <= i < count ==> final(store)@[i]@ == spec_bulk_results(
                    old(self).alloc@,
                    count as int,
                )[i],
            forall|i: int| count <= i < old(store).len() ==> final(store)@[i] == old(store)@[i],
    {
        let ghost v0 = self.alloc@;
        let mut index: usize = 0;
        while index < count
            invariant
                index <= count,
                count <= store.len(),
                self.alloc.wf(),
                self.alloc@ == spec_bulk_state(v0, index as int),
                store.len() == old(store).len(),
                forall|i: int|
                    0 <= i < index ==> store@[i]@ == spec_bulk_results(v0, count as int)[i],
                forall|i: int| count <= i < old(store).len() ==> store@[i] == old(store)@[i],
            decreases count - index,
        {
            proof {
                lemma_bulk_peel(v0, index as int, count as int);
            }
            let page = self.alloc.request_page();
            store[index] = page;
            index = index + 1;
        }
        count
    }

    /// Hands one page back to the backing allocator.
    pub fn free(&mut self, address: PhysicalAddress)
        requires
            old(self).alloc.wf(),
            address@ + PAGE_SIZE <= u64::MAX,
        ensures
            final(self).alloc.wf(),
            final(self).alloc@ == spec_free_page(old(self).alloc@, address@),
    {
        self.alloc.free_pages(address, 1);
        proof {
            let v = old(self).alloc@;
            assert(spec_free_pages(v, address@, 1) == spec_free_pages(
                spec_free_page(v, address@),
                (address@ + 4096) as u64,
                0,
            ));
            assert(spec_free_pages(spec_free_page(v, address@), (address@ + 4096) as u64, 0)
                == spec_free_page(v, address@));
        }
    }
}

impl FrameAllocator for TempAllocWrapper {
    open spec fn wf(&self) -> bool {
        self.alloc.wf()
    }

    open spec fn free_frames(&self) -> Set<u64> {
        FrameAllocator::free_frames(&self.alloc)
    }

    /// Claims a page from the backing allocator.
    fn request_page(&mut self) -> (r: PhysicalAddress)
        ensures
            final(self).alloc@ == spec_request_page_state(old(self).alloc@),
            r@ == spec_request_page_result(old(self).alloc@),
    {
        self.alloc.request_page()
    }

    /// Hands a page back to the backing allocator.
    fn free_page(&mut self, address: PhysicalAddress)
        ensures
            final(self).alloc@ == spec_free_page(old(self).alloc@, address@),
    {
        self.alloc.free_page(address)
    }
}

/// The permanent kernel allocator: the ring of cached frames in front of
/// the temporary allocator.
pub struct PhysicalFrameAllocator {
    buffer: RingBuffer<PhysicalAddress, 512>,
    mem_manager: TempAllocWrapper,
}

impl PhysicalFrameAllocator {
    /// The cached frame addresses, oldest first.
    pub closed spec fn cache(&self) -> Seq<u64> {
        self.buffer@.map_values(|a: PhysicalAddress| a@)
    }

    /// The backing allocator's state.
    pub closed spec fn backing(&self) -> AllocatorView {
        self.mem_manager.alloc@
    }

    /// The ring is well formed, every cached non-zero frame is a page
    /// the backing allocator no longer counts free, cached frames are
    /// page aligned and inside the physical mask, and no non-zero frame
    /// is cached twice.
    pub closed spec fn cache_wf(&self) -> bool {
        &&& self.buffer.wf()
        &&& self.mem_manager.alloc.wf()
        &&& forall|i: int|
            0 <= i < self.cache().len() && #[trigger] self.cache()[i] != 0 ==> {
                &&& self.cache()[i] & !PHYSICAL_ADDRESS_MASK == 0
                &&& self.cache()[i] % 4096 == 0
                &&& !self.backing().free_frames().contains(self.cache()[i])
            }
        &&& forall|i: int, j: int|
            0 <= i < j < self.cache().len() && #[trigger] self.cache()[i] != 0 ==> self.cache()[i]
                != #[trigger] self.cache()[j]
    }

    /// A cache whose ring is empty and whose backing allocator is
    /// `mem_manager`.
    pub fn new(mem_manager: TempAllocWrapper) -> (r: PhysicalFrameAllocator)
        requires
            mem_manager.alloc.wf(),
        ensures
            r.cache_wf(),
            r.cache().len() == 0,
            r.backing() == mem_manager.alloc@,
    {
        proof {
            assert(0u64 & 0x000F_FFFF_FFFF_F000 == 0) by (bit_vector);
        }
        PhysicalFrameAllocator { buffer: RingBuffer::new(PhysicalAddress::new(0)), mem_manager }
    }

    /// A cache over an empty backing allocator: every request returns
    /// the sentinel until a real allocator is set.
    pub fn new_uninit() -> (r: PhysicalFrameAllocator)
        ensures
            r.cache_wf(),
            r.cache().len() == 0,
    {
        PhysicalFrameAllocator::new(TempAllocWrapper { alloc: PageFrameAllocator::new_uninit() })
    }

    /// Replaces the backing allocator. The cached frames must already be
    /// absent from the new allocator's free set, which holds whenever the
    /// ring is empty.
    pub fn set_mem_manager(&mut self, mem_manager: TempAllocWrapper)
        requires
            old(self).cache_wf(),
            mem_manager.alloc.wf(),
            forall|i: int|
                0 <= i < old(self).cache().len() && #[trigger] old(self).cache()[i] != 0
                    ==> !FrameAllocator::free_frames(&mem_manager.alloc).contains(
                    old(self).cache()[i],
                ),
        ensures
            final(self).cache_wf(),
            final(self).cache() == old(self).cache(),
            final(self).backing() == mem_manager.alloc@,
    {
        self.mem_manager = mem_manager;
        proof {
            assert forall|i: int|
                0 <= i < self.cache().len() && #[trigger] self.cache()[i] != 0 implies {
                &&& self.cache()[i] & !PHYSICAL_ADDRESS_MASK == 0
                &&& self.cache()[i] % 4096 == 0
                &&& !self.backing().free_frames().contains(self.cache()[i])
            } by {
                assert(old(self).cache()[i] == self.cache()[i]);
            }
        }
    }

    /// Tops the ring up to half capacity from the backing allocator when
    /// it is observed empty; afterwards the ring is never empty.
    pub fn fill_buffer(&mut self)
        requires
            old(self).cache_wf(),
        ensures
            final(self).cache_wf(),
            final(self).cache().len() > 0,
            final(self).free_frames().subset_of(old(self).free_frames()),
            old(self).cache().len() > 0 ==> *final(self) == *old(self),
            old(self).cache().len() == 0 ==> final(self).backing() == spec_bulk_state(
                old(self).backing(),
                255,
            ) && final(self).cache() =~= spec_bulk_results(old(self).backing(), 255),
    {
        proof {
            assert(0u64 & 0x000F_FFFF_FFFF_F000 == 0) by (bit_vector);
        }
        if !self.buffer.is_empty() {
            proof {
                lemma_cache_free_frames_unchanged(old(self), self);
            }
            return ;
        }

        let ghost pre = *self;
        let mut required_count: usize = self.buffer.max_items() as usize / 2;
        proof {
            assert(required_count == 255);
        }
        let mut alloc_buffer: Vec<PhysicalAddress> = Vec::new();
        let mut i: usize = 0;
        proof {
            assert(0u64 & 0x000F_FFFF_FFFF_F000 == 0) by (bit_vector);
        }
        while i < required_count
            invariant
                i <= required_count,
                alloc_buffer.len() == i,
            decreases required_count - i,
        {
            alloc_buffer.push(PhysicalAddress::new(0));
            i = i + 1;
        }
        let ghost v0 = self.backing();
        let alloced_count = self.mem_manager.bulk_alloc(&mut alloc_buffer, required_count);
        proof {
            lemma_bulk_free_frames(v0, required_count as int);
            lemma_bulk_peel(v0, 0, 255);
        }

        let mut index: usize = 0;
        while index < alloced_count
            invariant
                index <= alloced_count,
                alloced_count == 255,
                alloc_buffer.len() == 255,
                self.buffer.wf(),
                self.mem_manager.alloc.wf(),
                self.cache().len() == index,
                self.backing() == spec_bulk_state(v0, 255),
                0 <= v0.cursor,
                v0.bytes.len() * 8 <= usize::MAX,
                v0.bytes.len() * 8 <= 0x100_0000_0000,
                spec_bulk_results(v0, 255).len() == 255,
                forall|j: int|
                    0 <= j < 255 ==> alloc_buffer@[j]@ == spec_bulk_results(v0, 255)[j],
                forall|j: int|
                    0 <= j < index ==> #[trigger] self.cache()[j] == spec_bulk_results(v0, 255)[j],
                self.cache_wf(),
            decreases alloced_count - index,
        {
            proof {
                lemma_bulk_result_props(v0, index as int, 255);
            }
            let ghost cache_pre = self.cache();
            let _ = self.buffer.write(alloc_buffer[index]);
            proof {
                assert(self.cache() =~= cache_pre.push(alloc_buffer@[index as int]@));
                assert forall|i2: int, j2: int|
                    0 <= i2 < j2 < self.cache().len() && #[trigger] self.cache()[i2]
                    != 0 implies self.cache()[i2] != #[trigger] self.cache()[j2] by {
                    if j2 == self.cache().len() - 1 && self.cache()[j2] != 0 {
                        lemma_bulk_result_props(v0, i2, 255);
                        lemma_bulk_results_distinct(v0, i2, index as int, 255);
                    }
                }
            }
            index = index + 1;
        }
        proof {
            lemma_fill_free_frames(&pre, self, v0);
            assert(self.cache() =~= spec_bulk_results(v0, 255));
        }
    }

    /// The frame source the backing allocator and ring together still
    /// hold: the non-zero cached frames beside the backing free set.
    pub closed spec fn spec_free_frames(&self) -> Set<u64> {
        Set::new(
            |a: u64|
                (a != 0 && exists|i: int|
                    0 <= i < self.cache().len() && #[trigger] self.cache()[i] == a)
                    || self.backing().free_frames().contains(a),
        )
    }
}

/// Two caches with the same ring contents and backing state offer the
/// same frames.
proof fn lemma_cache_free_frames_unchanged(a: &PhysicalFrameAllocator, b: &PhysicalFrameAllocator)
    requires
        a.cache() == b.cache(),
        a.backing() == b.backing(),
    ensures
        FrameAllocator::free_frames(b).subset_of(FrameAllocator::free_frames(a)),
{
}

/// Bulk allocation only shrinks the backing free set.
proof fn lemma_bulk_free_frames(v: AllocatorView, n: int)
    requires
        0 <= v.cursor,
        v.bytes.len() * 8 <= usize::MAX,
        v.bytes.len() * 8 <= 0x100_0000_0000,
    ensures
        spec_bulk_state(v, n).free_frames().subset_of(v.free_frames()),
        0 <= spec_bulk_state(v, n).cursor,
        spec_bulk_state(v, n).bytes.len() == v.bytes.len(),
    decreases n,
{
    if n > 0 {
        lemma_request_page_free_frames(v);
        lemma_request_preserves_bounds(v);
        lemma_bulk_free_frames(spec_request_page_state(v), n - 1);
    }
}

/// A non-zero bulk result is a page-aligned, masked frame that no later
/// bulk state counts free.
proof fn lemma_bulk_result_props(v: AllocatorView, i: int, n: int)
    requires
        0 <= i < n,
        0 <= v.cursor,
        v.bytes.len() * 8 <= usize::MAX,
        v.bytes.len() * 8 <= 0x100_0000_0000,
    ensures
        spec_bulk_results(v, n)[i] != 0 ==> {
            let a = spec_bulk_results(v, n)[i];
            &&& a & !PHYSICAL_ADDRESS_MASK == 0
            &&& a % 4096 == 0
            &&& !spec_bulk_state(v, n).free_frames().contains(a)
        },
    decreases n,
{
    lemma_bulk_peel(v, i, n);
    lemma_bulk_free_frames(v, i);
    lemma_request_page_free_frames(spec_bulk_state(v, i));
    lemma_request_preserves_bounds_upto(v, i);
    lemma_bulk_suffix_subset(v, i + 1, n);
}

/// The free set of a later bulk state is inside the free set of an
/// earlier one.
proof fn lemma_bulk_suffix_subset(v: AllocatorView, i: int, n: int)
    requires
        0 <= i <= n,
        0 <= v.cursor,
        v.bytes.len() * 8 <= usize::MAX,
        v.bytes.len() * 8 <= 0x100_0000_0000,
    ensures
        spec_bulk_state(v, n).free_frames().subset_of(spec_bulk_state(v, i).free_frames()),
    decreases n - i,
{
    if i < n {
        lemma_request_preserves_bounds_upto(v, i);
        lemma_request_page_free_frames(spec_bulk_state(v, i));
        lemma_bulk_peel(v, i, n);
        lemma_bulk_suffix_subset(v, i + 1, n);
    }
}

/// Bulk intermediate states keep the cursor and bitmap-size bounds.
proof fn lemma_request_preserves_bounds_upto(v: AllocatorView, i: int)
    requires
        0 <= i,
        0 <= v.cursor,
        v.bytes.len() * 8 <= usize::MAX,
        v.bytes.len() * 8 <= 0x100_0000_0000,
    ensures
        0 <= spec_bulk_state(v, i).cursor,
        spec_bulk_state(v, i).bytes.len() == v.bytes.len(),
    decreases i,
{
    if i > 0 {
        lemma_request_preserves_bounds(v);
        lemma_request_preserves_bounds_upto(spec_request_page_state(v), i - 1);
    }
}

/// Two distinct non-zero bulk results are distinct frames.
proof fn lemma_bulk_results_distinct(v: AllocatorView, i: int, j: int, n: int)
    requires
        0 <= i < j < n,
        0 <= v.cursor,
        v.bytes.len() * 8 <= usize::MAX,
        v.bytes.len() * 8 <= 0x100_0000_0000,
        spec_bulk_results(v, n)[i] != 0,
        spec_bulk_results(v, n)[j] != 0,
    ensures
        spec_bulk_results(v, n)[i] != spec_bulk_results(v, n)[j],
{
    lemma_bulk_peel(v, i, n);
    lemma_bulk_peel(v, j, n);
    lemma_request_preserves_bounds_upto(v, i);
    lemma_request_preserves_bounds_upto(v, j);
    lemma_request_page_free_frames(spec_bulk_state(v, i));
    lemma_request_page_free_frames(spec_bulk_state(v, j));
    lemma_bulk_suffix_subset(v, i + 1, j);
}

/// After an empty-ring refill the offered frames are a subset of those
/// offered before.
proof fn lemma_fill_free_frames(
    pre: &PhysicalFrameAllocator,
    post: &PhysicalFrameAllocator,
    v0: AllocatorView,
)
    requires
        pre.backing() == v0,
        0 <= v0.cursor,
        v0.bytes.len() * 8 <= usize::MAX,
        v0.bytes.len() * 8 <= 0x100_0000_0000,
        pre.cache().len() == 0,
        post.backing() == spec_bulk_state(v0, 255),
        forall|j: int|
            0 <= j < post.cache().len() ==> #[trigger] post.cache()[j] == spec_bulk_results(
                v0,
                255,
            )[j],
        post.cache().len() == 255,
    ensures
        FrameAllocator::free_frames(post).subset_of(FrameAllocator::free_frames(pre)),
{
    lemma_bulk_free_frames(v0, 255);
    assert forall|a: u64|
        FrameAllocator::free_frames(post).contains(a) implies FrameAllocator::free_frames(
        pre,
    ).contains(a) by {
        if a != 0 && exists|i: int| 0 <= i < post.cache().len() && #[trigger] post.cache()[i]
            == a {
            let i = choose|i: int| 0 <= i < post.cache().len() && #[trigger] post.cache()[i] == a;
            lemma_bulk_peel(v0, i, 255);
            lemma_request_preserves_bounds_upto(v0, i);
            lemma_request_page_free_frames(spec_bulk_state(v0, i));
            lemma_bulk_free_frames(v0, i);
        }
    }
}

impl FrameAllocator for PhysicalFrameAllocator {
    open spec fn wf(&self) -> bool {
        self.cache_wf()
    }

    open spec fn free_frames(&self) -> Set<u64> {
        self.spec_free_frames()
    }

    /// Pops a cached frame, refilling the ring from the backing
    /// allocator when it runs empty: the result is the oldest cached
    /// frame, or the first of the 255 frames a refill draws.
    fn request_page(&mut self) -> (r: PhysicalAddress)
        ensures
            old(self).cache().len() > 0 ==> {
                &&& r@ == old(self).cache()[0]
                &&& final(self).cache() =~= old(self).cache().subrange(
                    1,
                    old(self).cache().len() as int,
                )
                &&& final(self).backing() == old(self).backing()
            },
            old(self).cache().len() == 0 ==> {
                &&& r@ == spec_bulk_results(old(self).backing(), 255)[0]
                &&& final(self).cache() =~= spec_bulk_results(old(self).backing(), 255).subrange(
                    1,
                    255,
                )
                &&& final(self).backing() == spec_bulk_state(old(self).backing(), 255)
            },
    {
        match self.buffer.read() {
            Option::Some(address) => {
                proof {
                    assert(self.cache() =~= old(self).cache().subrange(
                        1,
                        old(self).cache().len() as int,
                    ));
                    lemma_pop_free_frames(old(self), self, address@);
                }
                address
            },
            Option::None => {
                let ghost before_fill = *self;
                self.fill_buffer();
                let ghost filled = *self;
                match self.buffer.read() {
                    Option::Some(address) => {
                        proof {
                            assert(self.cache() =~= filled.cache().subrange(
                                1,
                                filled.cache().len() as int,
                            ));
                            lemma_pop_free_frames(&filled, self, address@);
                            lemma_bulk_peel(before_fill.backing(), 0, 255);
                            assert(filled.cache() == spec_bulk_results(
                                before_fill.backing(),
                                255,
                            ));
                            assert(self.cache() =~= spec_bulk_results(
                                before_fill.backing(),
                                255,
                            ).subrange(1, 255));
                        }
                        address
                    },
                    Option::None => {
                        proof {
                            assert(false);
                        }
                        PhysicalAddress::new(0)
                    },
                }
            },
        }
    }

    /// Pushes the frame into the ring; a full ring sends it straight
    /// back to the backing allocator instead. Either way a real frame in
    /// the backing allocator's range is never lost: the offered set
    /// afterwards is exactly the old set plus the freed frame.
    fn free_page(&mut self, address: PhysicalAddress)
        ensures
            old(self).cache().len() < 511 ==> final(self).cache() =~= old(self).cache().push(
                address@,
            ) && final(self).backing() == old(self).backing(),
            old(self).cache().len() == 511 ==> final(self).cache() == old(self).cache()
                && final(self).backing() == spec_free_page(old(self).backing(), address@),
            address@ != 0 && address@ as int / 4096 < old(self).backing().num_pages()
                ==> final(self).free_frames() =~= old(self).free_frames().insert(address@),
    {
        let ghost pre = *self;
        proof {
            pre.buffer.lemma_len_bound();
        }
        match self.buffer.write(address) {
            Option::Some(_) => {
                proof {
                    assert(self.cache() =~= pre.cache().push(address@));
                    lemma_push_free_frames(&pre, self, address@);
                    if address@ != 0 {
                        assert(self.cache()[self.cache().len() - 1] == address@);
                        assert(FrameAllocator::free_frames(self).contains(address@));
                        assert(FrameAllocator::free_frames(self) =~= FrameAllocator::free_frames(
                            &pre,
                        ).insert(address@));
                    }
                }
            },
            Option::None => {
                proof {
                    vstd::arithmetic::div_mod::lemma_fundamental_div_mod(address@ as int, 4096);
                }
                let ghost backing_pre = self.backing();
                self.mem_manager.alloc.free_page(address);
                proof {
                    assert(self.cache() =~= pre.cache());
                    lemma_backing_free_free_frames(&pre, self, address@);
                    if address@ != 0 && address@ as int / 4096 < backing_pre.num_pages() {
                        let pn = address@ as int / 4096;
                        assert(spec_map_get(backing_pre.bytes, pn)) by {
                            if !spec_map_get(backing_pre.bytes, pn) {
                                assert(backing_pre.free_frames().contains(address@));
                            }
                        }
                        crate::bitmap::lemma_map_set_get(backing_pre.bytes, pn, false);
                        assert(!spec_map_get(self.backing().bytes, pn));
                        assert(self.backing().free_frames().contains(address@));
                        assert(FrameAllocator::free_frames(self).contains(address@));
                        assert(FrameAllocator::free_frames(self) =~= FrameAllocator::free_frames(
                            &pre,
                        ).insert(address@));
                    }
                }
            },
        }
    }
}

/// Popping the oldest cached frame removes at most that frame from the
/// offered set and keeps the ring sound.
proof fn lemma_pop_free_frames(
    pre: &PhysicalFrameAllocator,
    post: &PhysicalFrameAllocator,
    a: u64,
)
    requires
        pre.cache_wf(),
        pre.cache().len() > 0,
        a == pre.cache()[0],
        post.cache() == pre.cache().subrange(1, pre.cache().len() as int),
        post.backing() == pre.backing(),
        post.buffer.wf(),
        post.mem_manager.alloc.wf(),
    ensures
        post.cache_wf(),
        FrameAllocator::free_frames(post).subset_of(FrameAllocator::free_frames(pre)),
        a != 0 ==> FrameAllocator::free_frames(pre).contains(a),
        a != 0 ==> !FrameAllocator::free_frames(post).contains(a),
        a != 0 ==> a & !PHYSICAL_ADDRESS_MASK == 0,
        a != 0 ==> a % 4096 == 0,
{
    assert(pre.cache()[0] == a);
    assert forall|i: int|
        0 <= i < post.cache().len() && #[trigger] post.cache()[i] != 0 implies {
        &&& post.cache()[i] & !PHYSICAL_ADDRESS_MASK == 0
        &&& post.cache()[i] % 4096 == 0
        &&& !post.backing().free_frames().contains(post.cache()[i])
    } by {
        assert(post.cache()[i] == pre.cache()[i + 1]);
    }
    assert forall|i: int, j: int|
        0 <= i < j < post.cache().len() && #[trigger] post.cache()[i] != 0 implies post.cache()[i]
        != #[trigger] post.cache()[j] by {
        assert(post.cache()[i] == pre.cache()[i + 1]);
        assert(post.cache()[j] == pre.cache()[j + 1]);
    }
    if a != 0 {
        assert(FrameAllocator::free_frames(pre).contains(a));
        assert forall|i: int|
            0 <= i < post.cache().len() implies #[trigger] post.cache()[i] != a by {
            assert(post.cache()[i] == pre.cache()[i + 1]);
        }
        assert(!FrameAllocator::free_frames(post).contains(a));
    }
    assert forall|b: u64|
        FrameAllocator::free_frames(post).contains(b) implies FrameAllocator::free_frames(
        pre,
    ).contains(b) by {
        if b != 0 && exists|i: int| 0 <= i < post.cache().len() && #[trigger] post.cache()[i]
            == b {
            let i = choose|i: int| 0 <= i < post.cache().len() && #[trigger] post.cache()[i] == b;
            assert(pre.cache()[i + 1] == b);
        }
    }
}

/// Pushing a frame that was not on offer adds exactly that frame to the
/// ring and keeps it sound.
proof fn lemma_push_free_frames(
    pre: &PhysicalFrameAllocator,
    post: &PhysicalFrameAllocator,
    a: u64,
)
    requires
        pre.cache_wf(),
        a & !PHYSICAL_ADDRESS_MASK == 0,
        a % 4096 == 0,
        !FrameAllocator::free_frames(pre).contains(a),
        post.cache() == pre.cache().push(a),
        post.backing() == pre.backing(),
        post.buffer.wf(),
        post.mem_manager.alloc.wf(),
    ensures
        post.cache_wf(),
        FrameAllocator::free_frames(pre).subset_of(FrameAllocator::free_frames(post)),
        FrameAllocator::free_frames(post).subset_of(
            FrameAllocator::free_frames(pre).insert(a),
        ),
{
    let n = pre.cache().len() as int;
    assert forall|i: int|
        0 <= i < post.cache().len() && #[trigger] post.cache()[i] != 0 implies {
        &&& post.cache()[i] & !PHYSICAL_ADDRESS_MASK == 0
        &&& post.cache()[i] % 4096 == 0
        &&& !post.backing().free_frames().contains(post.cache()[i])
    } by {
        if i < n {
            assert(post.cache()[i] == pre.cache()[i]);
        } else {
            assert(post.cache()[i] == a);
        }
    }
    assert forall|i: int, j: int|
        0 <= i < j < post.cache().len() && #[trigger] post.cache()[i] != 0 implies post.cache()[i]
        != #[trigger] post.cache()[j] by {
        if j < n {
            assert(post.cache()[i] == pre.cache()[i]);
            assert(post.cache()[j] == pre.cache()[j]);
        } else {
            assert(post.cache()[j] == a);
            if post.cache()[i] != 0 {
                assert(pre.cache()[i] == post.cache()[i]);
                assert(FrameAllocator::free_frames(pre).contains(pre.cache()[i]) || pre.cache()[i]
                    == 0);
            }
        }
    }
    assert forall|b: u64|
        FrameAllocator::free_frames(post).contains(b) implies FrameAllocator::free_frames(
        pre,
    ).insert(a).contains(b) by {
        if b != 0 && exists|i: int| 0 <= i < post.cache().len() && #[trigger] post.cache()[i]
            == b {
            let i = choose|i: int| 0 <= i < post.cache().len() && #[trigger] post.cache()[i] == b;
            if i < n {
                assert(pre.cache()[i] == b);
            }
        }
    }
    assert forall|b: u64|
        FrameAllocator::free_frames(pre).contains(b) implies FrameAllocator::free_frames(
        post,
    ).contains(b) by {
        if b != 0 && exists|i: int| 0 <= i < pre.cache().len() && #[trigger] pre.cache()[i] == b {
            let i = choose|i: int| 0 <= i < pre.cache().len() && #[trigger] pre.cache()[i] == b;
            assert(post.cache()[i] == b);
        }
    }
}

/// Freeing a frame straight into the backing allocator keeps the ring
/// sound and adds at most that frame to the offered set.
proof fn lemma_backing_free_free_frames(
    pre: &PhysicalFrameAllocator,
    post: &PhysicalFrameAllocator,
    a: u64,
)
    requires
        pre.cache_wf(),
        a & !PHYSICAL_ADDRESS_MASK == 0,
        a % 4096 == 0,
        !FrameAllocator::free_frames(pre).contains(a),
        post.cache() == pre.cache(),
        post.buffer.wf(),
        post.mem_manager.alloc.wf(),
        pre.backing().free_frames().subset_of(post.backing().free_frames()),
        post.backing().free_frames().subset_of(pre.backing().free_frames().insert(a)),
    ensures
        post.cache_wf(),
        FrameAllocator::free_frames(pre).subset_of(FrameAllocator::free_frames(post)),
        FrameAllocator::free_frames(post).subset_of(
            FrameAllocator::free_frames(pre).insert(a),
        ),
{
    assert forall|i: int|
        0 <= i < post.cache().len() && #[trigger] post.cache()[i] != 0 implies {
        &&& post.cache()[i] & !PHYSICAL_ADDRESS_MASK == 0
        &&& post.cache()[i] % 4096 == 0
        &&& !post.backing().free_frames().contains(post.cache()[i])
    } by {
        assert(pre.cache()[i] == post.cache()[i]);
        assert(FrameAllocator::free_frames(pre).contains(pre.cache()[i]));
        assert(pre.cache()[i] != a);
    }
}

} // verus!
