//! A byte-backed bitmap where bit `i` of the map is bit `i % 8` of byte
//! `i / 8`, counted from the most significant bit.
//!
//! Out-of-range reads return `false` (treated as "not free", a conservative
//! default) and out-of-range writes have no effect.

use vstd::prelude::*;

verus! {

/// Bit `i` of `b`, counted from the most significant bit; `false` when
/// `i > 7`.
pub open spec fn spec_byte_get(b: u8, i: u8) -> bool {
    if i <= 7 {
        b & (0x80u8 >> i) != 0
    } else {
        false
    }
}

/// `b` with bit `i` (counted from the most significant bit) set to `value`;
/// unchanged when `i > 7`.
pub open spec fn spec_byte_set(b: u8, i: u8, value: bool) -> u8 {
    if i <= 7 {
        if value {
            (b & !(0x80u8 >> i)) | (0x80u8 >> i)
        } else {
            b & !(0x80u8 >> i)
        }
    } else {
        b
    }
}

/// Bit `i` of the byte sequence `bytes`; `false` when `i` is past the end.
pub open spec fn spec_map_get(bytes: Seq<u8>, i: int) -> bool {
    if 0 <= i && i / 8 < bytes.len() {
        spec_byte_get(bytes[i / 8], (i % 8) as u8)
    } else {
        false
    }
}

/// `bytes` with bit `i` set to `value`; unchanged when `i` is past the end.
pub open spec fn spec_map_set(bytes: Seq<u8>, i: int, value: bool) -> Seq<u8> {
    if 0 <= i && i / 8 < bytes.len() {
        bytes.update(i / 8, spec_byte_set(bytes[i / 8], (i % 8) as u8, value))
    } else {
        bytes
    }
}

/// One byte of a bitmap, eight bits wide.
#[derive(Clone, Copy, Debug, PartialEq, Eq, Structural)]
pub struct BitmapByte {
    pub byte: u8,
}

impl BitmapByte {
    /// Reads bit `index`, counted from the most significant bit; `false`
    /// when `index > 7`.
    pub fn get(&self, index: usize) -> (r: bool)
        ensures
            r == (index <= 7 && spec_byte_get(self.byte, index as u8)),
    {
        if index > 7 {
            false
        } else {
            let bit_indexer = 0x80u8 >> (index as u8);
            self.byte & bit_indexer > 0
        }
    }

    /// Writes bit `index`, counted from the most significant bit; no effect
    /// when `index > 7`.
    pub fn set(&mut self, index: usize, value: bool)
        ensures
            index <= 7 ==> final(self).byte == spec_byte_set(old(self).byte, index as u8, value),
            index > 7 ==> final(self).byte == old(self).byte,
    {
        if index > 7 {
        } else {
            let bit_indexer = 0x80u8 >> (index as u8);
            self.byte = self.byte & !bit_indexer;
            if value {
                self.byte = self.byte | bit_indexer;
            }
        }
    }

    /// Overwrites the whole byte.
    pub fn set_byte(&mut self, byte: u8)
        ensures
            final(self).byte == byte,
    {
        self.byte = byte;
    }
}

/// A bitmap over an owned byte buffer.
#[derive(Clone, Debug)]
pub struct Bitmap {
    buffer: Vec<u8>,
}

impl View for Bitmap {
    type V = Seq<u8>;

    closed spec fn view(&self) -> Seq<u8> {
        self.buffer@
    }
}

impl Bitmap {
    /// An empty bitmap: every read returns `false` and writes go nowhere.
    pub fn new_uninit() -> (r: Bitmap)
        ensures
            r@ =~= Seq::<u8>::empty(),
    {
        Bitmap { buffer: Vec::new() }
    }

    /// A bitmap over the given byte buffer.
    pub fn new(buffer: Vec<u8>) -> (r: Bitmap)
        ensures
            r@ == buffer@,
    {
        Bitmap { buffer }
    }

    /// A bitmap of `size` bytes, all bits clear.
    pub fn new_init_zero(size: usize) -> (r: Bitmap)
        ensures
            r@.len() == size,
            forall|i: int| 0 <= i < size ==> r@[i] == 0u8,
    {
        Self::new_init(size, 0)
    }

    /// A bitmap of `size` bytes, each byte set to `default_value`.
    pub fn new_init(size: usize, default_value: u8) -> (r: Bitmap)
        ensures
            r@.len() == size,
            forall|i: int| 0 <= i < size ==> r@[i] == default_value,
    {
        let mut buffer: Vec<u8> = Vec::new();
        let mut i: usize = 0;
        while i < size
            invariant
                i <= size,
                buffer.len() == i,
                forall|j: int| 0 <= j < i ==> buffer@[j] == default_value,
            decreases size - i,
        {
            buffer.push(default_value);
            i = i + 1;
        }
        Bitmap { buffer }
    }

    /// Reads bit `index`; `false` when `index` is past the end.
    pub fn get(&self, index: usize) -> (r: bool)
        ensures
            r == spec_map_get(self@, index as int),
    {
        let buffer_index = index / 8;
        let bit_index = index % 8;

        if buffer_index >= self.buffer.len() {
            false
        } else {
            let b = BitmapByte { byte: self.buffer[buffer_index] };
            b.get(bit_index)
        }
    }

    /// Writes bit `index`; returns whether the index was in range (an
    /// out-of-range write has no effect).
    pub fn set(&mut self, index: usize, value: bool) -> (r: bool)
        ensures
            final(self)@ == spec_map_set(old(self)@, index as int, value),
            r == (index / 8 < old(self)@.len()),
    {
        let buffer_index = index / 8;
        let bit_index = index % 8;

        if buffer_index >= self.buffer.len() {
            false
        } else {
            let mut b = BitmapByte { byte: self.buffer[buffer_index] };
            b.set(bit_index, value);
            self.buffer[buffer_index] = b.byte;
            assert(self@ =~= spec_map_set(old(self)@, index as int, value));
            true
        }
    }

    /// The bytes backing this bitmap, as an owned copy.
    pub fn get_buffer(&self) -> (r: Vec<u8>)
        ensures
            r@ == self@,
    {
        let mut buffer: Vec<u8> = Vec::new();
        let mut i: usize = 0;
        while i < self.buffer.len()
            invariant
                i <= self.buffer.len(),
                buffer.len() == i,
                forall|j: int| 0 <= j < i ==> buffer@[j] == self.buffer@[j],
            decreases self.buffer.len() - i,
        {
            buffer.push(self.buffer[i]);
            i = i + 1;
        }
        assert(buffer@ =~= self.buffer@);
        buffer
    }

    /// Replaces the backing buffer.
    pub fn set_buffer(&mut self, buffer: Vec<u8>)
        ensures
            final(self)@ == buffer@,
    {
        self.buffer = buffer;
    }

    /// The byte length of the backing buffer.
    pub fn size(&self) -> (r: usize)
        ensures
            r == self@.len(),
    {
        self.buffer.len()
    }
}

/// Writing a bit and reading it back yields the written value, writing one
/// bit leaves every other bit unchanged, and an out-of-range write changes
/// nothing.
pub proof fn lemma_map_set_get(bytes: Seq<u8>, i: int, value: bool)
    ensures
        0 <= i < bytes.len() * 8 ==> spec_map_get(spec_map_set(bytes, i, value), i) == value,
        i >= bytes.len() * 8 ==> spec_map_set(bytes, i, value) == bytes,
        forall|j: int|
            0 <= j && j != i ==> spec_map_get(spec_map_set(bytes, i, value), j) == spec_map_get(
                bytes,
                j,
            ),
{
    if 0 <= i && i / 8 < bytes.len() {
        let bi = i / 8;
        let ti = (i % 8) as u8;
        lemma_byte_set_get(bytes[bi], ti, value);
        assert forall|j: int|
            0 <= j && j != i implies spec_map_get(spec_map_set(bytes, i, value), j) == spec_map_get(
            bytes,
            j,
        ) by {
            if j / 8 < bytes.len() {
                if j / 8 == bi {
                    assert((j % 8) as u8 != ti);
                    lemma_byte_set_get(bytes[bi], ti, value);
                    assert(spec_byte_get(
                        spec_byte_set(bytes[bi], ti, value),
                        (j % 8) as u8,
                    ) == spec_byte_get(bytes[bi], (j % 8) as u8));
                }
            }
        }
    }
}

/// Bit-level round trip inside one byte: reading back a just-written bit
/// yields the written value, and other bits are untouched.
proof fn lemma_byte_set_get(b: u8, i: u8, value: bool)
    by (bit_vector)
    requires
        i <= 7,
    ensures
        value ==> ((b & !(0x80u8 >> i)) | (0x80u8 >> i)) & (0x80u8 >> i) != 0,
        !value ==> (b & !(0x80u8 >> i)) & (0x80u8 >> i) == 0,
        forall|j: u8|
            j <= 7 && j != i ==> ((((b & !(0x80u8 >> i)) | (0x80u8 >> i)) & (0x80u8 >> j) != 0) == (
            b & (0x80u8 >> j) != 0) && ((b & !(0x80u8 >> i)) & (0x80u8 >> j) != 0) == (b & (0x80u8
                >> j) != 0)),
{
}

} // verus!
