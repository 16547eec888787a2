//! A fixed-capacity ring buffer over `N` slots.
//!
//! One slot is always kept empty so that a full buffer and an empty buffer
//! can be told apart: the usable capacity is `N - 1` items. Under
//! concurrent callers this structure is meant to run lock free, with a
//! reservation cursor and a commit cursor advanced by compare-and-swap;
//! under an exclusive borrow the two write cursors always coincide, and
//! the read and write positions below are those cursors' committed
//! values.

use vstd::prelude::*;

verus! {

/// A bounded first-in first-out queue with `N - 1` usable slots.
pub struct RingBuffer<T: Copy, const N: usize> {
    buffer: Vec<T>,
    read_pos: u16,
    write_pos: u16,
}

impl<T: Copy, const N: usize> View for RingBuffer<T, N> {
    type V = Seq<T>;

    /// The queued items, oldest first.
    closed spec fn view(&self) -> Seq<T> {
        if self.write_pos >= self.read_pos {
            self.buffer@.subrange(self.read_pos as int, self.write_pos as int)
        } else {
            self.buffer@.subrange(self.read_pos as int, N as int) + self.buffer@.subrange(
                0,
                self.write_pos as int,
            )
        }
    }
}

impl<T: Copy, const N: usize> RingBuffer<T, N> {
    /// The slot count is in range and both cursors point at slots.
    pub closed spec fn wf(&self) -> bool {
        &&& 2 <= N <= 0x8000
        &&& self.buffer.len() == N
        &&& (self.read_pos as int) < N
        &&& (self.write_pos as int) < N
    }

    /// The committed write position; a successful `write` reports the new
    /// value of this cursor.
    pub closed spec fn spec_write_pos(&self) -> u16 {
        self.write_pos
    }

    /// A ring never holds more than its usable capacity.
    pub proof fn lemma_len_bound(&self)
        requires
            self.wf(),
        ensures
            self@.len() <= N - 1,
    {
    }

    /// An empty ring whose slots are filled with `default_value`.
    pub fn new(default_value: T) -> (r: RingBuffer<T, N>)
        requires
            2 <= N <= 0x8000,
        ensures
            r.wf(),
            r@ =~= Seq::<T>::empty(),
            r.spec_write_pos() == 0,
    {
        let mut buffer: Vec<T> = Vec::new();
        let mut i: usize = 0;
        while i < N
            invariant
                i <= N,
                buffer.len() == i,
            decreases N - i,
        {
            buffer.push(default_value);
            i = i + 1;
        }
        RingBuffer { buffer, read_pos: 0, write_pos: 0 }
    }

    /// Whether no item is queued.
    pub fn is_empty(&self) -> (r: bool)
        requires
            self.wf(),
        ensures
            r == (self@.len() == 0),
    {
        self.read_pos == self.write_pos
    }

    /// Whether every usable slot is taken: one more `write` would be
    /// rejected.
    pub fn is_full(&self) -> (r: bool)
        requires
            self.wf(),
        ensures
            r == (self@.len() == N - 1),
    {
        let mut read_pos = self.read_pos;
        if read_pos == 0 {
            read_pos = N as u16;
        }

        self.write_pos + 1 == read_pos
    }

    /// The number of queued items.
    pub fn num_items(&self) -> (r: u16)
        requires
            self.wf(),
        ensures
            r == self@.len(),
    {
        let read_pos = self.read_pos;
        let mut write_pos = self.write_pos;
        if read_pos > write_pos {
            write_pos = write_pos + N as u16;
        }
        write_pos - read_pos
    }

    /// The usable capacity: one slot is kept empty.
    pub fn max_items(&self) -> (r: u16)
        requires
            self.wf(),
        ensures
            r == N - 1,
    {
        N as u16 - 1
    }

    /// How many more items fit before the ring is full.
    pub fn remaining_space(&self) -> (r: u16)
        requires
            self.wf(),
        ensures
            r == N - 1 - self@.len(),
    {
        self.max_items() - self.num_items()
    }

    /// Takes the oldest item, or reports `None` on an empty ring, which
    /// is then left unchanged.
    pub fn read(&mut self) -> (r: Option<T>)
        requires
            old(self).wf(),
        ensures
            final(self).wf(),
            old(self)@.len() == 0 ==> r is None && *final(self) == *old(self),
            old(self)@.len() > 0 ==> r == Some(old(self)@[0]) && final(self)@ =~= old(
                self,
            )@.subrange(1, old(self)@.len() as int),
            old(self)@.len() > 0 ==> final(self).spec_write_pos() == old(self).spec_write_pos(),
    {
        if self.is_empty() {
            return None;
        }

        let output = self.buffer[self.read_pos as usize];
        let mut new_read_pos = self.read_pos + 1;
        if new_read_pos == N as u16 {
            new_read_pos = 0;
        }
        self.read_pos = new_read_pos;
        assert(self@ =~= old(self)@.subrange(1, old(self)@.len() as int));
        Some(output)
    }

    /// Queues `item` behind the others and reports the new write
    /// position, or reports `None` on a full ring, which is then left
    /// unchanged.
    pub fn write(&mut self, item: T) -> (r: Option<u16>)
        requires
            old(self).wf(),
        ensures
            final(self).wf(),
            old(self)@.len() == N - 1 ==> r is None && *final(self) == *old(self),
            old(self)@.len() < N - 1 ==> final(self)@ =~= old(self)@.push(item) && r == Some(
                final(self).spec_write_pos(),
            ),
            old(self)@.len() < N - 1 ==> final(self).spec_write_pos() == (if old(
                self,
            ).spec_write_pos() as int + 1 == N {
                0
            } else {
                old(self).spec_write_pos() + 1
            }),
    {
        let cur_write_pos = self.write_pos;
        if self.is_full() {
            return None;
        }

        let mut new_write_pos = cur_write_pos + 1;
        if new_write_pos == N as u16 {
            new_write_pos = 0;
        }

        self.buffer[cur_write_pos as usize] = item;
        self.write_pos = new_write_pos;
        assert(self@ =~= old(self)@.push(item));
        Some(new_write_pos)
    }
}

} // verus!
