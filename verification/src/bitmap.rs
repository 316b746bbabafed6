//! A bit-addressable array over an owned byte buffer. Bit 0 of the map is
//! the most significant bit of byte 0.
use vstd::prelude::*;

verus! {

/// Whether bit `index` of `byte` is set, counting from the most significant
/// bit.
pub open spec fn bit_of(byte: u8, index: usize) -> bool {
    byte & (0x80u8 >> index) != 0
}

/// How many entries of `bits` are true.
pub open spec fn count_true(bits: Seq<bool>) -> nat
    decreases bits.len(),
{
    if bits.len() == 0 {
        0
    } else {
        count_true(bits.drop_last()) + if bits.last() {
            1nat
        } else {
            0nat
        }
    }
}

/// The bits that a byte buffer holds, eight per byte, most significant
/// first.
pub open spec fn bits_of(bytes: Seq<u8>) -> Seq<bool> {
    Seq::new(8 * bytes.len(), |i: int| bit_of(bytes[i / 8], (i % 8) as usize))
}

/// One byte of a bitmap.
#[derive(Clone, Copy, Debug)]
pub struct BitmapByte {
    pub byte: u8,
}

impl BitmapByte {
    pub fn get(&self, index: usize) -> (r: bool)
        ensures
            r == (index <= 7 && bit_of(self.byte, index)),
    {
        if index > 7 {
            false
        } else {
            (self.byte & (0b1000_0000u8 >> index)) > 0
        }
    }

    pub fn set(&mut self, index: usize, value: bool)
        ensures
            index > 7 ==> final(self).byte == old(self).byte,
            index <= 7 ==> forall|j: usize|
                j < 8 ==> #[trigger] bit_of(final(self).byte, j) == if j == index {
                    value
                } else {
                    bit_of(old(self).byte, j)
                },
    {
        if index > 7 {
            return ;
        }
        let byte_indexer: u8 = 0b1000_0000u8 >> index;
        let before: u8 = self.byte;
        if value {
            self.byte = self.byte | byte_indexer;
        } else {
            self.byte = self.byte & !byte_indexer;
        }
        proof {
            let after: u8 = self.byte;
            assert forall|j: usize| j < 8 implies #[trigger] bit_of(after, j) == if j == index {
                value
            } else {
                bit_of(before, j)
            } by {
                lemma_bit_update(before, index, j);
            }
        }
    }

    pub fn set_byte(&mut self, byte: u8)
        ensures
            final(self).byte == byte,
    {
        self.byte = byte;
    }
}

proof fn lemma_bit_update(b: u8, i: usize, j: usize)
    requires
        i < 8,
        j < 8,
    ensures
        bit_of(b | (0x80u8 >> i), j) == (j == i || bit_of(b, j)),
        bit_of(b & !(0x80u8 >> i), j) == (j != i && bit_of(b, j)),
{
    assert(((b | (0x80u8 >> i)) & (0x80u8 >> j) != 0) == (j == i || b & (0x80u8 >> j) != 0) && ((b
        & !(0x80u8 >> i)) & (0x80u8 >> j) != 0) == (j != i && b & (0x80u8 >> j) != 0))
        by (bit_vector)
        requires
            i < 8,
            j < 8,
    ;
}

/// Setting one entry raises or lowers the count of true entries by the
/// change in that entry alone.
pub proof fn lemma_count_update(bits: Seq<bool>, index: int, value: bool)
    requires
        0 <= index < bits.len(),
    ensures
        bits[index] == value ==> count_true(bits.update(index, value)) == count_true(bits),
        !bits[index] && value ==> count_true(bits.update(index, value)) == count_true(bits) + 1,
        bits[index] && !value ==> count_true(bits.update(index, value)) + 1 == count_true(bits),
        count_true(bits) <= bits.len(),
    decreases bits.len(),
{
    let updated = bits.update(index, value);
    if index == bits.len() - 1 {
        assert(updated.drop_last() =~= bits.drop_last());
        lemma_count_bound(bits.drop_last());
    } else {
        assert(updated.drop_last() =~= bits.drop_last().update(index, value));
        lemma_count_update(bits.drop_last(), index, value);
    }
    if bits[index] == value {
        assert(updated =~= bits);
    }
}

/// No more entries are true than there are entries.
pub proof fn lemma_count_bound(bits: Seq<bool>)
    ensures
        count_true(bits) <= bits.len(),
    decreases bits.len(),
{
    if bits.len() > 0 {
        lemma_count_bound(bits.drop_last());
    }
}

/// Where every entry is true the count is the length; where none is, zero.
pub proof fn lemma_count_uniform(bits: Seq<bool>, value: bool)
    requires
        forall|i: int| 0 <= i < bits.len() ==> bits[i] == value,
    ensures
        value ==> count_true(bits) == bits.len(),
        !value ==> count_true(bits) == 0,
    decreases bits.len(),
{
    if bits.len() > 0 {
        lemma_count_uniform(bits.drop_last(), value);
    }
}

/// A fixed number of bits kept in the first `size` bytes of a buffer that
/// the bitmap owns.
#[derive(Debug)]
pub struct Bitmap {
    size: usize,
    buffer: Vec<u8>,
}

impl View for Bitmap {
    type V = Seq<bool>;

    /// The `8 * size` bits of the map, in index order.
    closed spec fn view(&self) -> Seq<bool> {
        bits_of(self.buffer@.subrange(0, self.size as int))
    }
}

impl Bitmap {
    /// The buffer holds at least `size` bytes, and every bit has an index
    /// that fits in `usize`.
    pub closed spec fn wf(&self) -> bool {
        &&& self.size <= self.buffer@.len()
        &&& 8 * self.size <= usize::MAX
    }

    /// The number of bytes that hold bits.
    pub closed spec fn byte_count(&self) -> nat {
        self.size as nat
    }

    /// The whole buffer, the bytes beyond `size` included.
    pub closed spec fn bytes(&self) -> Seq<u8> {
        self.buffer@
    }

    /// How the view is read off the buffer.
    pub proof fn lemma_view(&self)
        requires
            self.wf(),
        ensures
            self@.len() == 8 * self.byte_count(),
            self@.len() <= usize::MAX,
            self.byte_count() <= self.bytes().len(),
            forall|i: int|
                0 <= i < 8 * self.byte_count() ==> #[trigger] self@[i] == bit_of(
                    self.bytes()[i / 8],
                    (i % 8) as usize,
                ),
    {
    }

    /// A bitmap of no bits.
    pub fn new_uninitialized() -> (r: Bitmap)
        ensures
            r.wf(),
            r.byte_count() == 0,
            r@ =~= Seq::<bool>::empty(),
            r.bytes() =~= Seq::<u8>::empty(),
    {
        Bitmap { size: 0, buffer: Vec::new() }
    }

    /// A bitmap over the first `size` bytes of `buffer`, which it takes as
    /// they are.
    pub fn new(size: usize, buffer: Vec<u8>) -> (r: Bitmap)
        requires
            size <= buffer@.len(),
            8 * size <= usize::MAX,
        ensures
            r.wf(),
            r.byte_count() == size,
            r.bytes() == buffer@,
            r@ == bits_of(buffer@.subrange(0, size as int)),
    {
        Bitmap { size, buffer }
    }

    /// A bitmap over the first `size` bytes of `buffer` with every bit
    /// cleared.
    pub fn new_init_zero(size: usize, buffer: Vec<u8>) -> (r: Bitmap)
        requires
            size <= buffer@.len(),
            8 * size <= usize::MAX,
        ensures
            r.wf(),
            r.byte_count() == size,
            r@.len() == 8 * size,
            forall|i: int| 0 <= i < 8 * size ==> !r@[i],
            r.bytes().len() == buffer@.len(),
            forall|k: int| 0 <= k < size ==> r.bytes()[k] == 0,
            forall|k: int| size <= k < buffer@.len() ==> r.bytes()[k] == buffer@[k],
    {
        let r = Self::new_init(size, buffer, 0);
        proof {
            assert forall|i: int| 0 <= i < 8 * size implies !r@[i] by {
                let j = (i % 8) as usize;
                assert(!bit_of(0u8, j)) by (bit_vector);
            }
        }
        r
    }

    /// A bitmap over the first `size` bytes of `buffer` with each of those
    /// bytes set to `default`.
    pub fn new_init(size: usize, buffer: Vec<u8>, default: u8) -> (r: Bitmap)
        requires
            size <= buffer@.len(),
            8 * size <= usize::MAX,
        ensures
            r.wf(),
            r.byte_count() == size,
            r@.len() == 8 * size,
            forall|i: int| 0 <= i < 8 * size ==> r@[i] == bit_of(default, (i % 8) as usize),
            r.bytes().len() == buffer@.len(),
            forall|k: int| 0 <= k < size ==> r.bytes()[k] == default,
            forall|k: int| size <= k < buffer@.len() ==> r.bytes()[k] == buffer@[k],
    {
        let ghost given = buffer@;
        let mut bitmap = Self::new(size, buffer);
        let mut i: usize = 0;
        while i < size
            invariant
                i <= size,
                bitmap.size == size,
                bitmap.buffer@.len() == given.len(),
                size <= given.len(),
                8 * size <= usize::MAX,
                forall|k: int| 0 <= k < i ==> bitmap.buffer@[k] == default,
                forall|k: int| i <= k < given.len() ==> bitmap.buffer@[k] == given[k],
            decreases size - i,
        {
            bitmap.set_byte(i, default);
            i += 1;
        }
        bitmap
    }

    /// The bit at `index`; false where the map has no such bit.
    pub fn get(&self, index: usize) -> (r: bool)
        requires
            self.wf(),
        ensures
            r == (index < self@.len() && self@[index as int]),
    {
        let buffer_index: usize = index / 8;
        let bit_index: usize = index % 8;
        if buffer_index >= self.size {
            false
        } else {
            let byte = BitmapByte { byte: self.buffer[buffer_index] };
            byte.get(bit_index)
        }
    }

    /// Writes `value` to the bit at `index` and says whether the map has
    /// such a bit. No other bit changes.
    pub fn set(&mut self, index: usize, value: bool) -> (r: bool)
        requires
            old(self).wf(),
        ensures
            final(self).wf(),
            final(self).byte_count() == old(self).byte_count(),
            r == (index < old(self)@.len()),
            r ==> final(self)@ == old(self)@.update(index as int, value),
            !r ==> final(self)@ == old(self)@ && final(self).bytes() == old(self).bytes(),
            final(self).bytes().len() == old(self).bytes().len(),
            forall|k: int|
                0 <= k < old(self).bytes().len() && k != index / 8 ==> final(self).bytes()[k]
                    == old(self).bytes()[k],
    {
        let buffer_index: usize = index / 8;
        let bit_index: usize = index % 8;
        if buffer_index >= self.size {
            false
        } else {
            let mut byte = BitmapByte { byte: self.buffer[buffer_index] };
            byte.set(bit_index, value);
            self.buffer[buffer_index] = byte.byte;
            proof {
                let before = old(self)@;
                let after = self@;
                assert forall|i: int| 0 <= i < after.len() implies after[i] == before.update(
                    index as int,
                    value,
                )[i] by {
                    if i / 8 == buffer_index as int {
                        let j = (i % 8) as usize;
                        assert(bit_of(byte.byte, j) == if j == bit_index {
                            value
                        } else {
                            bit_of(old(self).buffer@[buffer_index as int], j)
                        });
                    }
                }
                assert(after =~= before.update(index as int, value));
            }
            true
        }
    }

    /// The number of bits that are set.
    pub fn count_set(&self) -> (r: usize)
        requires
            self.wf(),
        ensures
            r == count_true(self@),
    {
        let limit: usize = self.size * 8;
        let mut count: usize = 0;
        let mut index: usize = 0;
        while index < limit
            invariant
                index <= limit,
                limit == self@.len(),
                self.wf(),
                count == count_true(self@.subrange(0, index as int)),
                count <= index,
            decreases limit - index,
        {
            proof {
                assert(self@.subrange(0, index + 1).drop_last() =~= self@.subrange(0, index as int));
            }
            if self.get(index) {
                count += 1;
            }
            index += 1;
        }
        proof {
            assert(self@.subrange(0, limit as int) =~= self@);
        }
        count
    }

    /// The bytes of the buffer.
    pub fn get_buffer(&self) -> (r: &Vec<u8>)
        ensures
            r@ == self.bytes(),
    {
        &self.buffer
    }

    /// Puts the bitmap over another buffer and hands back the one it had.
    pub fn set_buffer(&mut self, buffer: Vec<u8>) -> (r: Vec<u8>)
        requires
            old(self).wf(),
            old(self).byte_count() <= buffer@.len(),
        ensures
            final(self).wf(),
            final(self).byte_count() == old(self).byte_count(),
            final(self).bytes() == buffer@,
            final(self)@ == bits_of(buffer@.subrange(0, old(self).byte_count() as int)),
            r@ == old(self).bytes(),
    {
        let mut buffer = buffer;
        core::mem::swap(&mut self.buffer, &mut buffer);
        buffer
    }

    /// The number of bytes that hold bits: the map has eight times as many
    /// bits.
    pub fn size(&self) -> (r: usize)
        ensures
            r == self.byte_count(),
    {
        self.size
    }

    /// Sets the eight bits held in byte `index` at once; does nothing where
    /// the map has no such byte.
    pub fn set_byte(&mut self, index: usize, byte: u8)
        requires
            old(self).wf(),
        ensures
            final(self).wf(),
            final(self).byte_count() == old(self).byte_count(),
            index < old(self).byte_count() ==> final(self).bytes() == old(self).bytes().update(
                index as int,
                byte,
            ),
            index >= old(self).byte_count() ==> final(self).bytes() == old(self).bytes(),
    {
        if index >= self.size {
            return ;
        }
        self.buffer[index] = byte;
    }
}

} // verus!
