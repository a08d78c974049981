//! A read-write view over a borrowed byte region.

use vstd::prelude::*;
use crate::byte_order::{
    be_bytes, be_value, bits_of_i128, bits_of_i16, bits_of_i32, bits_of_i64, i128_of_bits,
    i16_of_bits, i32_of_bits, i64_of_bits, i8_of_bits, le_bytes, le_value, lemma_bytes_len,
    lemma_radix_values, radix, signed, unsigned,
};
use crate::region::{copy_in, copy_out, load_be, load_le, splice, store_be, store_le};
use crate::state::ViewState;

verus! {

/// A view of a `&mut [u8]` that writes integers into it and reads them
/// back, in sequence from two cursors or at any offset. The region stays the
/// caller's; the view only borrows it.
///
/// ```text
/// -----------------------------------------------------
/// |       |                         |                 |
/// -----------------------------------------------------
///         ^                         ^                 ^
///         |                         |                 |
///   reader_index              writer_index        capacity
/// ```
///
/// Sequential writes add bytes at the write cursor; sequential reads take
/// bytes between the two cursors. Access by offset reaches the whole region,
/// whatever the cursors say.
///
/// Contracts speak of the view through its `ViewState`, and of the borrow it
/// holds through `region()`: every operation says what the view holds
/// afterwards, and that it still holds the same borrow.
#[derive(Debug)]
pub struct BufViewMut<'a> {
    buf: &'a mut [u8],
    reader_index: usize,
    writer_index: usize,
}

impl<'a> View for BufViewMut<'a> {
    type V = ViewState;

    closed spec fn view(&self) -> ViewState {
        ViewState {
            bytes: self.buf@,
            reader_index: self.reader_index as nat,
            writer_index: self.writer_index as nat,
        }
    }
}

impl<'a> BufViewMut<'a> {
    /// The cursors are in order and inside the region.
    pub open spec fn wf(&self) -> bool {
        self@.wf()
    }

    /// The borrow that the view holds. `final(view.region())@` is what the
    /// owner of the region finds in it once the view is gone; no operation of
    /// the view changes which borrow it holds.
    pub closed spec fn region(&self) -> &'a mut [u8] {
        self.buf
    }

    /// When the view is gone, the region holds what the view held last.
    pub proof fn lemma_released(&self)
        requires
            has_resolved(*self),
        ensures
            final(self.region())@ == self@.bytes,
    {
    }

    /// Views `buf` with both cursors at the start: nothing is readable
    /// until it is written.
    pub fn wrap(buf: &'a mut [u8]) -> (view: Self)
        ensures
            view.wf(),
            view@ == (ViewState { bytes: old(buf)@, reader_index: 0, writer_index: 0 }),
            final(buf)@ == final(view.region())@,
    {
        BufViewMut::wrap_with(buf, 0, 0)
    }

    /// Views `buf` with the cursors at the given positions.
    pub fn wrap_with(buf: &'a mut [u8], reader_index: usize, writer_index: usize) -> (view: Self)
        requires
            reader_index <= writer_index <= old(buf)@.len(),
        ensures
            view.wf(),
            view@ == (ViewState {
                bytes: old(buf)@,
                reader_index: reader_index as nat,
                writer_index: writer_index as nat,
            }),
            final(buf)@ == final(view.region())@,
    {
        BufViewMut { buf, reader_index, writer_index }
    }

    /// Takes the next `width` bytes as one number, most significant byte
    /// first, and moves the read cursor past them.
    fn take_be(&mut self, width: usize) -> (val: u128)
        requires
            old(self).wf(),
            width <= 16,
            old(self)@.remaining() >= width,
        ensures
            final(self).wf(),
            final(self)@ == old(self)@.advance(width as nat),
            final(final(self).region())@ == final(old(self).region())@,
            val == be_value(old(self)@.front(width as int)),
            val < radix(width as nat),
    {
        assert(self.buf@.len() == self.buf.len());
        let val = load_be(self.buf, self.reader_index, width);
        self.reader_index = self.reader_index + width;
        val
    }

    /// Takes the next `width` bytes as one number, least significant byte
    /// first, and moves the read cursor past them.
    fn take_le(&mut self, width: usize) -> (val: u128)
        requires
            old(self).wf(),
            width <= 16,
            old(self)@.remaining() >= width,
        ensures
            final(self).wf(),
            final(self)@ == old(self)@.advance(width as nat),
            final(final(self).region())@ == final(old(self).region())@,
            val == le_value(old(self)@.front(width as int)),
            val < radix(width as nat),
    {
        assert(self.buf@.len() == self.buf.len());
        let val = load_le(self.buf, self.reader_index, width);
        self.reader_index = self.reader_index + width;
        val
    }

    /// Stores the `width` low-order bytes of `val` at the write cursor, most
    /// significant byte first, and moves the cursor past them.
    fn give_be(&mut self, width: usize, val: u128)
        requires
            old(self).wf(),
            width <= 16,
            old(self)@.room() >= width,
        ensures
            final(self).wf(),
            final(self)@ == old(self)@.append(be_bytes(val as nat, width as nat)),
            final(self)@.writer_index == old(self)@.writer_index + width,
            final(final(self).region())@ == final(old(self).region())@,
    {
        proof {
            lemma_bytes_len(val as nat, width as nat);
        }
        assert(self.buf@.len() == self.buf.len());
        store_be(self.buf, self.writer_index, width, val);
        self.writer_index = self.writer_index + width;
    }

    /// Stores the `width` low-order bytes of `val` at the write cursor, least
    /// significant byte first, and moves the cursor past them.
    fn give_le(&mut self, width: usize, val: u128)
        requires
            old(self).wf(),
            width <= 16,
            old(self)@.room() >= width,
        ensures
            final(self).wf(),
            final(self)@ == old(self)@.append(le_bytes(val as nat, width as nat)),
            final(self)@.writer_index == old(self)@.writer_index + width,
            final(final(self).region())@ == final(old(self).region())@,
    {
        proof {
            lemma_bytes_len(val as nat, width as nat);
        }
        assert(self.buf@.len() == self.buf.len());
        store_le(self.buf, self.writer_index, width, val);
        self.writer_index = self.writer_index + width;
    }

    /// Reads the byte at the read cursor and moves the cursor past it.
    pub fn read_u8(&mut self) -> (val: u8)
        requires
            old(self).wf(),
            old(self)@.remaining() >= 1,
        ensures
            final(self).wf(),
            final(self)@ == old(self)@.advance(1),
            final(final(self).region())@ == final(old(self).region())@,
            val == old(self)@.bytes[old(self)@.reader_index as int],
    {
        let val = self.buf[self.reader_index];
        self.reader_index += 1;
        val
    }

    /// Reads the byte at the read cursor as an `i8` in two's complement and
    /// moves the cursor past it.
    pub fn read_i8(&mut self) -> (val: i8)
        requires
            old(self).wf(),
            old(self)@.remaining() >= 1,
        ensures
            final(self).wf(),
            final(self)@ == old(self)@.advance(1),
            final(final(self).region())@ == final(old(self).region())@,
            val == signed(old(self)@.bytes[old(self)@.reader_index as int] as nat, 1),
    {
        i8_of_bits(self.read_u8())
    }

    /// Reads the next two bytes as a big-endian `u16` and moves the read
    /// cursor past them.
    pub fn read_u16(&mut self) -> (val: u16)
        requires
            old(self).wf(),
            old(self)@.remaining() >= 2,
        ensures
            final(self).wf(),
            final(self)@ == old(self)@.advance(2),
            final(final(self).region())@ == final(old(self).region())@,
            val == be_value(old(self)@.front(2)),
    {
        proof {
            lemma_radix_values();
        }
        self.take_be(2) as u16
    }

    /// Reads the next two bytes as a little-endian `u16` and moves the read
    /// cursor past them.
    pub fn read_u16_le(&mut self) -> (val: u16)
        requires
            old(self).wf(),
            old(self)@.remaining() >= 2,
        ensures
            final(self).wf(),
            final(self)@ == old(self)@.advance(2),
            final(final(self).region())@ == final(old(self).region())@,
            val == le_value(old(self)@.front(2)),
    {
        proof {
            lemma_radix_values();
        }
        self.take_le(2) as u16
    }

    /// Reads the next two bytes as a big-endian `i16` and moves the read
    /// cursor past them.
    pub fn read_i16(&mut self) -> (val: i16)
        requires
            old(self).wf(),
            old(self)@.remaining() >= 2,
        ensures
            final(self).wf(),
            final(self)@ == old(self)@.advance(2),
            final(final(self).region())@ == final(old(self).region())@,
            val == signed(be_value(old(self)@.front(2)), 2),
    {
        proof {
            lemma_radix_values();
        }
        i16_of_bits(self.take_be(2) as u16)
    }

    /// Reads the next two bytes as a little-endian `i16` and moves the read
    /// cursor past them.
    pub fn read_i16_le(&mut self) -> (val: i16)
        requires
            old(self).wf(),
            old(self)@.remaining() >= 2,
        ensures
            final(self).wf(),
            final(self)@ == old(self)@.advance(2),
            final(final(self).region())@ == final(old(self).region())@,
            val == signed(le_value(old(self)@.front(2)), 2),
    {
        proof {
            lemma_radix_values();
        }
        i16_of_bits(self.take_le(2) as u16)
    }

    /// Reads the next four bytes as a big-endian `u32` and moves the read
    /// cursor past them.
    pub fn read_u32(&mut self) -> (val: u32)
        requires
            old(self).wf(),
            old(self)@.remaining() >= 4,
        ensures
            final(self).wf(),
            final(self)@ == old(self)@.advance(4),
            final(final(self).region())@ == final(old(self).region())@,
            val == be_value(old(self)@.front(4)),
    {
        proof {
            lemma_radix_values();
        }
        self.take_be(4) as u32
    }

    /// Reads the next four bytes as a little-endian `u32` and moves the read
    /// cursor past them.
    pub fn read_u32_le(&mut self) -> (val: u32)
        requires
            old(self).wf(),
            old(self)@.remaining() >= 4,
        ensures
            final(self).wf(),
            final(self)@ == old(self)@.advance(4),
            final(final(self).region())@ == final(old(self).region())@,
            val == le_value(old(self)@.front(4)),
    {
        proof {
            lemma_radix_values();
        }
        self.take_le(4) as u32
    }

    /// Reads the next four bytes as a big-endian `i32` and moves the read
    /// cursor past them.
    pub fn read_i32(&mut self) -> (val: i32)
        requires
            old(self).wf(),
            old(self)@.remaining() >= 4,
        ensures
            final(self).wf(),
            final(self)@ == old(self)@.advance(4),
            final(final(self).region())@ == final(old(self).region())@,
            val == signed(be_value(old(self)@.front(4)), 4),
    {
        proof {
            lemma_radix_values();
        }
        i32_of_bits(self.take_be(4) as u32)
    }

    /// Reads the next four bytes as a little-endian `i32` and moves the read
    /// cursor past them.
    pub fn read_i32_le(&mut self) -> (val: i32)
        requires
            old(self).wf(),
            old(self)@.remaining() >= 4,
        ensures
            final(self).wf(),
            final(self)@ == old(self)@.advance(4),
            final(final(self).region())@ == final(old(self).region())@,
            val == signed(le_value(old(self)@.front(4)), 4),
    {
        proof {
            lemma_radix_values();
        }
        i32_of_bits(self.take_le(4) as u32)
    }

    /// Reads the next eight bytes as a big-endian `u64` and moves the read
    /// cursor past them.
    pub fn read_u64(&mut self) -> (val: u64)
        requires
            old(self).wf(),
            old(self)@.remaining() >= 8,
        ensures
            final(self).wf(),
            final(self)@ == old(self)@.advance(8),
            final(final(self).region())@ == final(old(self).region())@,
            val == be_value(old(self)@.front(8)),
    {
        proof {
            lemma_radix_values();
        }
        self.take_be(8) as u64
    }

    /// Reads the next eight bytes as a little-endian `u64` and moves the read
    /// cursor past them.
    pub fn read_u64_le(&mut self) -> (val: u64)
        requires
            old(self).wf(),
            old(self)@.remaining() >= 8,
        ensures
            final(self).wf(),
            final(self)@ == old(self)@.advance(8),
            final(final(self).region())@ == final(old(self).region())@,
            val == le_value(old(self)@.front(8)),
    {
        proof {
            lemma_radix_values();
        }
        self.take_le(8) as u64
    }

    /// Reads the next eight bytes as a big-endian `i64` and moves the read
    /// cursor past them.
    pub fn read_i64(&mut self) -> (val: i64)
        requires
            old(self).wf(),
            old(self)@.remaining() >= 8,
        ensures
            final(self).wf(),
            final(self)@ == old(self)@.advance(8),
            final(final(self).region())@ == final(old(self).region())@,
            val == signed(be_value(old(self)@.front(8)), 8),
    {
        proof {
            lemma_radix_values();
        }
        i64_of_bits(self.take_be(8) as u64)
    }

    /// Reads the next eight bytes as a little-endian `i64` and moves the read
    /// cursor past them.
    pub fn read_i64_le(&mut self) -> (val: i64)
        requires
            old(self).wf(),
            old(self)@.remaining() >= 8,
        ensures
            final(self).wf(),
            final(self)@ == old(self)@.advance(8),
            final(final(self).region())@ == final(old(self).region())@,
            val == signed(le_value(old(self)@.front(8)), 8),
    {
        proof {
            lemma_radix_values();
        }
        i64_of_bits(self.take_le(8) as u64)
    }

    /// Reads the next sixteen bytes as a big-endian `u128` and moves the read
    /// cursor past them.
    pub fn read_u128(&mut self) -> (val: u128)
        requires
            old(self).wf(),
            old(self)@.remaining() >= 16,
        ensures
            final(self).wf(),
            final(self)@ == old(self)@.advance(16),
            final(final(self).region())@ == final(old(self).region())@,
            val == be_value(old(self)@.front(16)),
    {
        self.take_be(16)
    }

    /// Reads the next sixteen bytes as a little-endian `u128` and moves the read
    /// cursor past them.
    pub fn read_u128_le(&mut self) -> (val: u128)
        requires
            old(self).wf(),
            old(self)@.remaining() >= 16,
        ensures
            final(self).wf(),
            final(self)@ == old(self)@.advance(16),
            final(final(self).region())@ == final(old(self).region())@,
            val == le_value(old(self)@.front(16)),
    {
        self.take_le(16)
    }

    /// Reads the next sixteen bytes as a big-endian `i128` and moves the read
    /// cursor past them.
    pub fn read_i128(&mut self) -> (val: i128)
        requires
            old(self).wf(),
            old(self)@.remaining() >= 16,
        ensures
            final(self).wf(),
            final(self)@ == old(self)@.advance(16),
            final(final(self).region())@ == final(old(self).region())@,
            val == signed(be_value(old(self)@.front(16)), 16),
    {
        i128_of_bits(self.take_be(16))
    }

    /// Reads the next sixteen bytes as a little-endian `i128` and moves the read
    /// cursor past them.
    pub fn read_i128_le(&mut self) -> (val: i128)
        requires
            old(self).wf(),
            old(self)@.remaining() >= 16,
        ensures
            final(self).wf(),
            final(self)@ == old(self)@.advance(16),
            final(final(self).region())@ == final(old(self).region())@,
            val == signed(le_value(old(self)@.front(16)), 16),
    {
        i128_of_bits(self.take_le(16))
    }

    /// Fills `dest` with the next bytes and moves the read cursor past them.
    /// There must be enough bytes left to fill all of `dest`.
    pub fn read_bytes(&mut self, dest: &mut [u8]) -> (count: usize)
        requires
            old(self).wf(),
            old(self)@.remaining() >= old(dest)@.len(),
        ensures
            final(self).wf(),
            count == old(dest)@.len(),
            final(self)@ == old(self)@.advance(count as nat),
            final(final(self).region())@ == final(old(self).region())@,
            final(dest)@ == old(self)@.front(count as int),
    {
        assert(self.buf@.len() == self.buf.len());
        let left = self.remaining();
        let copy_len = if dest.len() < left {
            dest.len()
        } else {
            left
        };
        copy_out(self.buf, self.reader_index, dest, copy_len);
        proof {
            assert(dest@ =~= old(self)@.front(copy_len as int));
        }
        self.reader_index = self.reader_index + copy_len;
        copy_len
    }

    /// The byte at `index`; no cursor moves.
    pub fn get_u8(&mut self, index: usize) -> (val: u8)
        requires
            index < old(self)@.capacity(),
        ensures
            final(self)@ == old(self)@,
            final(final(self).region())@ == final(old(self).region())@,
            val == old(self)@.bytes[index as int],
    {
        self.buf[index]
    }

    /// The byte at `index` as an `i8` in two's complement; no cursor moves.
    pub fn get_i8(&mut self, index: usize) -> (val: i8)
        requires
            index < old(self)@.capacity(),
        ensures
            final(self)@ == old(self)@,
            final(final(self).region())@ == final(old(self).region())@,
            val == signed(old(self)@.bytes[index as int] as nat, 1),
    {
        i8_of_bits(self.get_u8(index))
    }

    /// The two bytes from `index` on as a big-endian `u16`; no cursor
    /// moves.
    pub fn get_u16(&mut self, index: usize) -> (val: u16)
        requires
            index + 2 <= old(self)@.capacity(),
        ensures
            final(self)@ == old(self)@,
            final(final(self).region())@ == final(old(self).region())@,
            val == be_value(old(self)@.span(index as int, 2)),
    {
        proof {
            lemma_radix_values();
        }
        load_be(self.buf, index, 2) as u16
    }

    /// The two bytes from `index` on as a little-endian `u16`; no cursor
    /// moves.
    pub fn get_u16_le(&mut self, index: usize) -> (val: u16)
        requires
            index + 2 <= old(self)@.capacity(),
        ensures
            final(self)@ == old(self)@,
            final(final(self).region())@ == final(old(self).region())@,
            val == le_value(old(self)@.span(index as int, 2)),
    {
        proof {
            lemma_radix_values();
        }
        load_le(self.buf, index, 2) as u16
    }

    /// The two bytes from `index` on as a big-endian `i16`; no cursor
    /// moves.
    pub fn get_i16(&mut self, index: usize) -> (val: i16)
        requires
            index + 2 <= old(self)@.capacity(),
        ensures
            final(self)@ == old(self)@,
            final(final(self).region())@ == final(old(self).region())@,
            val == signed(be_value(old(self)@.span(index as int, 2)), 2),
    {
        proof {
            lemma_radix_values();
        }
        i16_of_bits(load_be(self.buf, index, 2) as u16)
    }

    /// The two bytes from `index` on as a little-endian `i16`; no cursor
    /// moves.
    pub fn get_i16_le(&mut self, index: usize) -> (val: i16)
        requires
            index + 2 <= old(self)@.capacity(),
        ensures
            final(self)@ == old(self)@,
            final(final(self).region())@ == final(old(self).region())@,
            val == signed(le_value(old(self)@.span(index as int, 2)), 2),
    {
        proof {
            lemma_radix_values();
        }
        i16_of_bits(load_le(self.buf, index, 2) as u16)
    }

    /// The four bytes from `index` on as a big-endian `u32`; no cursor
    /// moves.
    pub fn get_u32(&mut self, index: usize) -> (val: u32)
        requires
            index + 4 <= old(self)@.capacity(),
        ensures
            final(self)@ == old(self)@,
            final(final(self).region())@ == final(old(self).region())@,
            val == be_value(old(self)@.span(index as int, 4)),
    {
        proof {
            lemma_radix_values();
        }
        load_be(self.buf, index, 4) as u32
    }

    /// The four bytes from `index` on as a little-endian `u32`; no cursor
    /// moves.
    pub fn get_u32_le(&mut self, index: usize) -> (val: u32)
        requires
            index + 4 <= old(self)@.capacity(),
        ensures
            final(self)@ == old(self)@,
            final(final(self).region())@ == final(old(self).region())@,
            val == le_value(old(self)@.span(index as int, 4)),
    {
        proof {
            lemma_radix_values();
        }
        load_le(self.buf, index, 4) as u32
    }

    /// The four bytes from `index` on as a big-endian `i32`; no cursor
    /// moves.
    pub fn get_i32(&mut self, index: usize) -> (val: i32)
        requires
            index + 4 <= old(self)@.capacity(),
        ensures
            final(self)@ == old(self)@,
            final(final(self).region())@ == final(old(self).region())@,
            val == signed(be_value(old(self)@.span(index as int, 4)), 4),
    {
        proof {
            lemma_radix_values();
        }
        i32_of_bits(load_be(self.buf, index, 4) as u32)
    }

    /// The four bytes from `index` on as a little-endian `i32`; no cursor
    /// moves.
    pub fn get_i32_le(&mut self, index: usize) -> (val: i32)
        requires
            index + 4 <= old(self)@.capacity(),
        ensures
            final(self)@ == old(self)@,
            final(final(self).region())@ == final(old(self).region())@,
            val == signed(le_value(old(self)@.span(index as int, 4)), 4),
    {
        proof {
            lemma_radix_values();
        }
        i32_of_bits(load_le(self.buf, index, 4) as u32)
    }

    /// The eight bytes from `index` on as a big-endian `u64`; no cursor
    /// moves.
    pub fn get_u64(&mut self, index: usize) -> (val: u64)
        requires
            index + 8 <= old(self)@.capacity(),
        ensures
            final(self)@ == old(self)@,
            final(final(self).region())@ == final(old(self).region())@,
            val == be_value(old(self)@.span(index as int, 8)),
    {
        proof {
            lemma_radix_values();
        }
        load_be(self.buf, index, 8) as u64
    }

    /// The eight bytes from `index` on as a little-endian `u64`; no cursor
    /// moves.
    pub fn get_u64_le(&mut self, index: usize) -> (val: u64)
        requires
            index + 8 <= old(self)@.capacity(),
        ensures
            final(self)@ == old(self)@,
            final(final(self).region())@ == final(old(self).region())@,
            val == le_value(old(self)@.span(index as int, 8)),
    {
        proof {
            lemma_radix_values();
        }
        load_le(self.buf, index, 8) as u64
    }

    /// The eight bytes from `index` on as a big-endian `i64`; no cursor
    /// moves.
    pub fn get_i64(&mut self, index: usize) -> (val: i64)
        requires
            index + 8 <= old(self)@.capacity(),
        ensures
            final(self)@ == old(self)@,
            final(final(self).region())@ == final(old(self).region())@,
            val == signed(be_value(old(self)@.span(index as int, 8)), 8),
    {
        proof {
            lemma_radix_values();
        }
        i64_of_bits(load_be(self.buf, index, 8) as u64)
    }

    /// The eight bytes from `index` on as a little-endian `i64`; no cursor
    /// moves.
    pub fn get_i64_le(&mut self, index: usize) -> (val: i64)
        requires
            index + 8 <= old(self)@.capacity(),
        ensures
            final(self)@ == old(self)@,
            final(final(self).region())@ == final(old(self).region())@,
            val == signed(le_value(old(self)@.span(index as int, 8)), 8),
    {
        proof {
            lemma_radix_values();
        }
        i64_of_bits(load_le(self.buf, index, 8) as u64)
    }

    /// The sixteen bytes from `index` on as a big-endian `u128`; no cursor
    /// moves.
    pub fn get_u128(&mut self, index: usize) -> (val: u128)
        requires
            index + 16 <= old(self)@.capacity(),
        ensures
            final(self)@ == old(self)@,
            final(final(self).region())@ == final(old(self).region())@,
            val == be_value(old(self)@.span(index as int, 16)),
    {
        load_be(self.buf, index, 16)
    }

    /// The sixteen bytes from `index` on as a little-endian `u128`; no cursor
    /// moves.
    pub fn get_u128_le(&mut self, index: usize) -> (val: u128)
        requires
            index + 16 <= old(self)@.capacity(),
        ensures
            final(self)@ == old(self)@,
            final(final(self).region())@ == final(old(self).region())@,
            val == le_value(old(self)@.span(index as int, 16)),
    {
        load_le(self.buf, index, 16)
    }

    /// The sixteen bytes from `index` on as a big-endian `i128`; no cursor
    /// moves.
    pub fn get_i128(&mut self, index: usize) -> (val: i128)
        requires
            index + 16 <= old(self)@.capacity(),
        ensures
            final(self)@ == old(self)@,
            final(final(self).region())@ == final(old(self).region())@,
            val == signed(be_value(old(self)@.span(index as int, 16)), 16),
    {
        i128_of_bits(load_be(self.buf, index, 16))
    }

    /// The sixteen bytes from `index` on as a little-endian `i128`; no cursor
    /// moves.
    pub fn get_i128_le(&mut self, index: usize) -> (val: i128)
        requires
            index + 16 <= old(self)@.capacity(),
        ensures
            final(self)@ == old(self)@,
            final(final(self).region())@ == final(old(self).region())@,
            val == signed(le_value(old(self)@.span(index as int, 16)), 16),
    {
        i128_of_bits(load_le(self.buf, index, 16))
    }

    /// Copies the bytes from `index` on to the front of `dest`, as many as
    /// `dest` takes and the region has; the rest of `dest` stays as it is. No
    /// cursor moves.
    pub fn get_bytes(&mut self, index: usize, dest: &mut [u8]) -> (count: usize)
        requires
            index < old(self)@.capacity(),
        ensures
            final(self)@ == old(self)@,
            final(final(self).region())@ == final(old(self).region())@,
            count == if index + old(dest)@.len() <= old(self)@.capacity() {
                old(dest)@.len() as int
            } else {
                old(self)@.capacity() - index
            },
            final(dest)@ == splice(old(dest)@, 0, old(self)@.span(index as int, count as int)),
    {
        let reach = self.buf.len() - index;
        let copy_len = if dest.len() <= reach {
            dest.len()
        } else {
            reach
        };
        copy_out(self.buf, index, dest, copy_len);
        copy_len
    }

    /// Stores `val` at the write cursor and moves the cursor past it.
    pub fn write_u8(&mut self, val: u8)
        requires
            old(self).wf(),
            old(self)@.room() >= 1,
        ensures
            final(self).wf(),
            final(self)@ == old(self)@.append(seq![val]),
            final(final(self).region())@ == final(old(self).region())@,
    {
        let ghost before = self@;
        self.buf[self.writer_index] = val;
        self.writer_index += 1;
        proof {
            assert(self@.bytes =~= before.append(seq![val]).bytes);
        }
    }

    /// Stores `val` at the write cursor as two bytes, big-endian, and
    /// moves the cursor past them.
    pub fn write_u16(&mut self, val: u16)
        requires
            old(self).wf(),
            old(self)@.room() >= 2,
        ensures
            final(self).wf(),
            final(self)@ == old(self)@.append(be_bytes(val as nat, 2)),
            final(self)@.writer_index == old(self)@.writer_index + 2,
            final(final(self).region())@ == final(old(self).region())@,
    {
        self.give_be(2, val as u128);
    }

    /// Stores `val` at the write cursor as two bytes, little-endian, and
    /// moves the cursor past them.
    pub fn write_u16_le(&mut self, val: u16)
        requires
            old(self).wf(),
            old(self)@.room() >= 2,
        ensures
            final(self).wf(),
            final(self)@ == old(self)@.append(le_bytes(val as nat, 2)),
            final(self)@.writer_index == old(self)@.writer_index + 2,
            final(final(self).region())@ == final(old(self).region())@,
    {
        self.give_le(2, val as u128);
    }

    /// Stores `val` at the write cursor as two bytes, big-endian, and
    /// moves the cursor past them.
    pub fn write_i16(&mut self, val: i16)
        requires
            old(self).wf(),
            old(self)@.room() >= 2,
        ensures
            final(self).wf(),
            final(self)@ == old(self)@.append(be_bytes(unsigned(val as int, 2), 2)),
            final(self)@.writer_index == old(self)@.writer_index + 2,
            final(final(self).region())@ == final(old(self).region())@,
    {
        self.give_be(2, bits_of_i16(val) as u128);
    }

    /// Stores `val` at the write cursor as two bytes, little-endian, and
    /// moves the cursor past them.
    pub fn write_i16_le(&mut self, val: i16)
        requires
            old(self).wf(),
            old(self)@.room() >= 2,
        ensures
            final(self).wf(),
            final(self)@ == old(self)@.append(le_bytes(unsigned(val as int, 2), 2)),
            final(self)@.writer_index == old(self)@.writer_index + 2,
            final(final(self).region())@ == final(old(self).region())@,
    {
        self.give_le(2, bits_of_i16(val) as u128);
    }

    /// Stores `val` at the write cursor as four bytes, big-endian, and
    /// moves the cursor past them.
    pub fn write_u32(&mut self, val: u32)
        requires
            old(self).wf(),
            old(self)@.room() >= 4,
        ensures
            final(self).wf(),
            final(self)@ == old(self)@.append(be_bytes(val as nat, 4)),
            final(self)@.writer_index == old(self)@.writer_index + 4,
            final(final(self).region())@ == final(old(self).region())@,
    {
        self.give_be(4, val as u128);
    }

    /// Stores `val` at the write cursor as four bytes, little-endian, and
    /// moves the cursor past them.
    pub fn write_u32_le(&mut self, val: u32)
        requires
            old(self).wf(),
            old(self)@.room() >= 4,
        ensures
            final(self).wf(),
            final(self)@ == old(self)@.append(le_bytes(val as nat, 4)),
            final(self)@.writer_index == old(self)@.writer_index + 4,
            final(final(self).region())@ == final(old(self).region())@,
    {
        self.give_le(4, val as u128);
    }

    /// Stores `val` at the write cursor as four bytes, big-endian, and
    /// moves the cursor past them.
    pub fn write_i32(&mut self, val: i32)
        requires
            old(self).wf(),
            old(self)@.room() >= 4,
        ensures
            final(self).wf(),
            final(self)@ == old(self)@.append(be_bytes(unsigned(val as int, 4), 4)),
            final(self)@.writer_index == old(self)@.writer_index + 4,
            final(final(self).region())@ == final(old(self).region())@,
    {
        self.give_be(4, bits_of_i32(val) as u128);
    }

    /// Stores `val` at the write cursor as four bytes, little-endian, and
    /// moves the cursor past them.
    pub fn write_i32_le(&mut self, val: i32)
        requires
            old(self).wf(),
            old(self)@.room() >= 4,
        ensures
            final(self).wf(),
            final(self)@ == old(self)@.append(le_bytes(unsigned(val as int, 4), 4)),
            final(self)@.writer_index == old(self)@.writer_index + 4,
            final(final(self).region())@ == final(old(self).region())@,
    {
        self.give_le(4, bits_of_i32(val) as u128);
    }

    /// Stores `val` at the write cursor as eight bytes, big-endian, and
    /// moves the cursor past them.
    pub fn write_u64(&mut self, val: u64)
        requires
            old(self).wf(),
            old(self)@.room() >= 8,
        ensures
            final(self).wf(),
            final(self)@ == old(self)@.append(be_bytes(val as nat, 8)),
            final(self)@.writer_index == old(self)@.writer_index + 8,
            final(final(self).region())@ == final(old(self).region())@,
    {
        self.give_be(8, val as u128);
    }

    /// Stores `val` at the write cursor as eight bytes, little-endian, and
    /// moves the cursor past them.
    pub fn write_u64_le(&mut self, val: u64)
        requires
            old(self).wf(),
            old(self)@.room() >= 8,
        ensures
            final(self).wf(),
            final(self)@ == old(self)@.append(le_bytes(val as nat, 8)),
            final(self)@.writer_index == old(self)@.writer_index + 8,
            final(final(self).region())@ == final(old(self).region())@,
    {
        self.give_le(8, val as u128);
    }

    /// Stores `val` at the write cursor as eight bytes, big-endian, and
    /// moves the cursor past them.
    pub fn write_i64(&mut self, val: i64)
        requires
            old(self).wf(),
            old(self)@.room() >= 8,
        ensures
            final(self).wf(),
            final(self)@ == old(self)@.append(be_bytes(unsigned(val as int, 8), 8)),
            final(self)@.writer_index == old(self)@.writer_index + 8,
            final(final(self).region())@ == final(old(self).region())@,
    {
        self.give_be(8, bits_of_i64(val) as u128);
    }

    /// Stores `val` at the write cursor as eight bytes, little-endian, and
    /// moves the cursor past them.
    pub fn write_i64_le(&mut self, val: i64)
        requires
            old(self).wf(),
            old(self)@.room() >= 8,
        ensures
            final(self).wf(),
            final(self)@ == old(self)@.append(le_bytes(unsigned(val as int, 8), 8)),
            final(self)@.writer_index == old(self)@.writer_index + 8,
            final(final(self).region())@ == final(old(self).region())@,
    {
        self.give_le(8, bits_of_i64(val) as u128);
    }

    /// Stores `val` at the write cursor as sixteen bytes, big-endian, and
    /// moves the cursor past them.
    pub fn write_u128(&mut self, val: u128)
        requires
            old(self).wf(),
            old(self)@.room() >= 16,
        ensures
            final(self).wf(),
            final(self)@ == old(self)@.append(be_bytes(val as nat, 16)),
            final(self)@.writer_index == old(self)@.writer_index + 16,
            final(final(self).region())@ == final(old(self).region())@,
    {
        self.give_be(16, val);
    }

    /// Stores `val` at the write cursor as sixteen bytes, little-endian, and
    /// moves the cursor past them.
    pub fn write_u128_le(&mut self, val: u128)
        requires
            old(self).wf(),
            old(self)@.room() >= 16,
        ensures
            final(self).wf(),
            final(self)@ == old(self)@.append(le_bytes(val as nat, 16)),
            final(self)@.writer_index == old(self)@.writer_index + 16,
            final(final(self).region())@ == final(old(self).region())@,
    {
        self.give_le(16, val);
    }

    /// Stores `val` at the write cursor as sixteen bytes, big-endian, and
    /// moves the cursor past them.
    pub fn write_i128(&mut self, val: i128)
        requires
            old(self).wf(),
            old(self)@.room() >= 16,
        ensures
            final(self).wf(),
            final(self)@ == old(self)@.append(be_bytes(unsigned(val as int, 16), 16)),
            final(self)@.writer_index == old(self)@.writer_index + 16,
            final(final(self).region())@ == final(old(self).region())@,
    {
        self.give_be(16, bits_of_i128(val));
    }

    /// Stores `val` at the write cursor as sixteen bytes, little-endian, and
    /// moves the cursor past them.
    pub fn write_i128_le(&mut self, val: i128)
        requires
            old(self).wf(),
            old(self)@.room() >= 16,
        ensures
            final(self).wf(),
            final(self)@ == old(self)@.append(le_bytes(unsigned(val as int, 16), 16)),
            final(self)@.writer_index == old(self)@.writer_index + 16,
            final(final(self).region())@ == final(old(self).region())@,
    {
        self.give_le(16, bits_of_i128(val));
    }

    /// Stores all of `src` at the write cursor and moves the cursor past it.
    pub fn write_bytes(&mut self, src: &[u8])
        requires
            old(self).wf(),
            old(self)@.room() >= src@.len(),
        ensures
            final(self).wf(),
            final(self)@ == old(self)@.append(src@),
            final(final(self).region())@ == final(old(self).region())@,
    {
        assert(self.buf@.len() == self.buf.len());
        let count = src.len();
        copy_in(self.buf, self.writer_index, src, count);
        proof {
            assert(src@.subrange(0, count as int) =~= src@);
        }
        self.writer_index = self.writer_index + count;
    }

    /// Stores at the write cursor as much of the front of `src` as the
    /// region has room for, and says how many bytes that was. The write
    /// cursor stays where it is.
    pub fn write_bytes_uncheck(&mut self, src: &[u8]) -> (count: usize)
        requires
            old(self).wf(),
        ensures
            final(self).wf(),
            count == if src@.len() <= old(self)@.room() {
                src@.len()
            } else {
                old(self)@.room()
            },
            final(self)@ == old(self)@.put(
                old(self)@.writer_index as int,
                src@.subrange(0, count as int),
            ),
            final(final(self).region())@ == final(old(self).region())@,
    {
        let room = self.buf.len() - self.writer_index;
        let copy_len = if src.len() > room {
            room
        } else {
            src.len()
        };
        copy_in(self.buf, self.writer_index, src, copy_len);
        copy_len
    }

    /// Stores `val` at `index`; no cursor moves.
    pub fn set_u8(&mut self, index: usize, val: u8)
        requires
            index < old(self)@.capacity(),
        ensures
            final(self)@ == old(self)@.put(index as int, seq![val]),
            final(final(self).region())@ == final(old(self).region())@,
    {
        let ghost before = self@;
        self.buf[index] = val;
        proof {
            assert(self@.bytes =~= before.put(index as int, seq![val]).bytes);
        }
    }

    /// Stores `val` from `index` on as two bytes, big-endian; no cursor
    /// moves.
    pub fn set_u16(&mut self, index: usize, val: u16)
        requires
            index + 2 <= old(self)@.capacity(),
        ensures
            final(self)@ == old(self)@.put(index as int, be_bytes(val as nat, 2)),
            final(final(self).region())@ == final(old(self).region())@,
    {
        store_be(self.buf, index, 2, val as u128);
    }

    /// Stores `val` from `index` on as two bytes, little-endian; no cursor
    /// moves.
    pub fn set_u16_le(&mut self, index: usize, val: u16)
        requires
            index + 2 <= old(self)@.capacity(),
        ensures
            final(self)@ == old(self)@.put(index as int, le_bytes(val as nat, 2)),
            final(final(self).region())@ == final(old(self).region())@,
    {
        store_le(self.buf, index, 2, val as u128);
    }

    /// Stores `val` from `index` on as two bytes, big-endian; no cursor
    /// moves.
    pub fn set_i16(&mut self, index: usize, val: i16)
        requires
            index + 2 <= old(self)@.capacity(),
        ensures
            final(self)@ == old(self)@.put(index as int, be_bytes(unsigned(val as int, 2), 2)),
            final(final(self).region())@ == final(old(self).region())@,
    {
        store_be(self.buf, index, 2, bits_of_i16(val) as u128);
    }

    /// Stores `val` from `index` on as two bytes, little-endian; no cursor
    /// moves.
    pub fn set_i16_le(&mut self, index: usize, val: i16)
        requires
            index + 2 <= old(self)@.capacity(),
        ensures
            final(self)@ == old(self)@.put(index as int, le_bytes(unsigned(val as int, 2), 2)),
            final(final(self).region())@ == final(old(self).region())@,
    {
        store_le(self.buf, index, 2, bits_of_i16(val) as u128);
    }

    /// Stores `val` from `index` on as four bytes, big-endian; no cursor
    /// moves.
    pub fn set_u32(&mut self, index: usize, val: u32)
        requires
            index + 4 <= old(self)@.capacity(),
        ensures
            final(self)@ == old(self)@.put(index as int, be_bytes(val as nat, 4)),
            final(final(self).region())@ == final(old(self).region())@,
    {
        store_be(self.buf, index, 4, val as u128);
    }

    /// Stores `val` from `index` on as four bytes, little-endian; no cursor
    /// moves.
    pub fn set_u32_le(&mut self, index: usize, val: u32)
        requires
            index + 4 <= old(self)@.capacity(),
        ensures
            final(self)@ == old(self)@.put(index as int, le_bytes(val as nat, 4)),
            final(final(self).region())@ == final(old(self).region())@,
    {
        store_le(self.buf, index, 4, val as u128);
    }

    /// Stores `val` from `index` on as four bytes, big-endian; no cursor
    /// moves.
    pub fn set_i32(&mut self, index: usize, val: i32)
        requires
            index + 4 <= old(self)@.capacity(),
        ensures
            final(self)@ == old(self)@.put(index as int, be_bytes(unsigned(val as int, 4), 4)),
            final(final(self).region())@ == final(old(self).region())@,
    {
        store_be(self.buf, index, 4, bits_of_i32(val) as u128);
    }

    /// Stores `val` from `index` on as four bytes, little-endian; no cursor
    /// moves.
    pub fn set_i32_le(&mut self, index: usize, val: i32)
        requires
            index + 4 <= old(self)@.capacity(),
        ensures
            final(self)@ == old(self)@.put(index as int, le_bytes(unsigned(val as int, 4), 4)),
            final(final(self).region())@ == final(old(self).region())@,
    {
        store_le(self.buf, index, 4, bits_of_i32(val) as u128);
    }

    /// Stores `val` from `index` on as eight bytes, big-endian; no cursor
    /// moves.
    pub fn set_u64(&mut self, index: usize, val: u64)
        requires
            index + 8 <= old(self)@.capacity(),
        ensures
            final(self)@ == old(self)@.put(index as int, be_bytes(val as nat, 8)),
            final(final(self).region())@ == final(old(self).region())@,
    {
        store_be(self.buf, index, 8, val as u128);
    }

    /// Stores `val` from `index` on as eight bytes, little-endian; no cursor
    /// moves.
    pub fn set_u64_le(&mut self, index: usize, val: u64)
        requires
            index + 8 <= old(self)@.capacity(),
        ensures
            final(self)@ == old(self)@.put(index as int, le_bytes(val as nat, 8)),
            final(final(self).region())@ == final(old(self).region())@,
    {
        store_le(self.buf, index, 8, val as u128);
    }

    /// Stores `val` from `index` on as eight bytes, big-endian; no cursor
    /// moves.
    pub fn set_i64(&mut self, index: usize, val: i64)
        requires
            index + 8 <= old(self)@.capacity(),
        ensures
            final(self)@ == old(self)@.put(index as int, be_bytes(unsigned(val as int, 8), 8)),
            final(final(self).region())@ == final(old(self).region())@,
    {
        store_be(self.buf, index, 8, bits_of_i64(val) as u128);
    }

    /// Stores `val` from `index` on as eight bytes, little-endian; no cursor
    /// moves.
    pub fn set_i64_le(&mut self, index: usize, val: i64)
        requires
            index + 8 <= old(self)@.capacity(),
        ensures
            final(self)@ == old(self)@.put(index as int, le_bytes(unsigned(val as int, 8), 8)),
            final(final(self).region())@ == final(old(self).region())@,
    {
        store_le(self.buf, index, 8, bits_of_i64(val) as u128);
    }

    /// Stores `val` from `index` on as sixteen bytes, big-endian; no cursor
    /// moves.
    pub fn set_u128(&mut self, index: usize, val: u128)
        requires
            index + 16 <= old(self)@.capacity(),
        ensures
            final(self)@ == old(self)@.put(index as int, be_bytes(val as nat, 16)),
            final(final(self).region())@ == final(old(self).region())@,
    {
        store_be(self.buf, index, 16, val);
    }

    /// Stores `val` from `index` on as sixteen bytes, little-endian; no cursor
    /// moves.
    pub fn set_u128_le(&mut self, index: usize, val: u128)
        requires
            index + 16 <= old(self)@.capacity(),
        ensures
            final(self)@ == old(self)@.put(index as int, le_bytes(val as nat, 16)),
            final(final(self).region())@ == final(old(self).region())@,
    {
        store_le(self.buf, index, 16, val);
    }

    /// Stores `val` from `index` on as sixteen bytes, big-endian; no cursor
    /// moves.
    pub fn set_i128(&mut self, index: usize, val: i128)
        requires
            index + 16 <= old(self)@.capacity(),
        ensures
            final(self)@ == old(self)@.put(index as int, be_bytes(unsigned(val as int, 16), 16)),
            final(final(self).region())@ == final(old(self).region())@,
    {
        store_be(self.buf, index, 16, bits_of_i128(val));
    }

    /// Stores `val` from `index` on as sixteen bytes, little-endian; no cursor
    /// moves.
    pub fn set_i128_le(&mut self, index: usize, val: i128)
        requires
            index + 16 <= old(self)@.capacity(),
        ensures
            final(self)@ == old(self)@.put(index as int, le_bytes(unsigned(val as int, 16), 16)),
            final(final(self).region())@ == final(old(self).region())@,
    {
        store_le(self.buf, index, 16, bits_of_i128(val));
    }

    /// Stores all of `src` from `index` on; no cursor moves.
    pub fn set_bytes(&mut self, index: usize, src: &[u8])
        requires
            index + src@.len() <= old(self)@.capacity(),
        ensures
            final(self)@ == old(self)@.put(index as int, src@),
            final(final(self).region())@ == final(old(self).region())@,
    {
        let count = src.len();
        copy_in(self.buf, index, src, count);
        proof {
            assert(src@.subrange(0, count as int) =~= src@);
        }
    }

    /// Moves the read cursor to `index`.
    pub fn set_reader_index(&mut self, index: usize)
        requires
            old(self).wf(),
            index <= old(self)@.writer_index,
        ensures
            final(self).wf(),
            final(self)@ == old(self)@.with_indices(index as nat, old(self)@.writer_index),
            final(final(self).region())@ == final(old(self).region())@,
    {
        self.reader_index = index;
    }

    /// The position of the next sequential read.
    pub fn reader_index(&self) -> (index: usize)
        ensures
            index == self@.reader_index,
    {
        self.reader_index
    }

    /// Moves the write cursor to `index`.
    pub fn set_writer_index(&mut self, index: usize)
        requires
            old(self).wf(),
            old(self)@.reader_index <= index <= old(self)@.capacity(),
        ensures
            final(self).wf(),
            final(self)@ == old(self)@.with_indices(old(self)@.reader_index, index as nat),
            final(final(self).region())@ == final(old(self).region())@,
    {
        self.writer_index = index;
    }

    /// The position where the readable bytes end.
    pub fn writer_index(&self) -> (index: usize)
        ensures
            index == self@.writer_index,
    {
        self.writer_index
    }

    /// Moves both cursors.
    pub fn set_index(&mut self, reader_index: usize, writer_index: usize)
        requires
            reader_index <= writer_index <= old(self)@.capacity(),
        ensures
            final(self).wf(),
            final(self)@ == old(self)@.with_indices(reader_index as nat, writer_index as nat),
            final(final(self).region())@ == final(old(self).region())@,
    {
        self.reader_index = reader_index;
        self.writer_index = writer_index;
    }

    /// Moves both cursors to the start of the region; the bytes stay as they
    /// are.
    pub fn clear(&mut self)
        ensures
            final(self).wf(),
            final(self)@ == old(self)@.with_indices(0, 0),
            final(final(self).region())@ == final(old(self).region())@,
    {
        self.reader_index = 0;
        self.writer_index = 0;
    }

    /// The number of bytes between the read cursor and the write cursor.
    pub fn remaining(&self) -> (count: usize)
        requires
            self.wf(),
        ensures
            count == self@.writer_index - self@.reader_index,
            count == self@.remaining(),
    {
        self.writer_index - self.reader_index
    }

    /// The length of the whole region.
    pub fn capacity(&self) -> (count: usize)
        ensures
            count == self@.capacity(),
    {
        self.buf.len()
    }

    /// The bytes between the two cursors, open to change. What the caller
    /// leaves in them is what the view then holds there; the bytes before
    /// and after them stay as they are.
    pub fn as_slice(&mut self) -> (readable: &mut [u8])
        requires
            old(self).wf(),
        ensures
            readable@ == old(self)@.readable(),
            final(self)@ == (ViewState {
                bytes: old(self)@.bytes.subrange(0, old(self)@.reader_index as int)
                    + final(readable)@ + old(self)@.bytes.subrange(
                    old(self)@.writer_index as int,
                    old(self)@.capacity() as int,
                ),
                ..old(self)@
            }),
            final(final(self).region())@ == final(old(self).region())@,
    {
        let (head, rest) = self.buf.split_at_mut(self.reader_index);
        let (readable, tail) = rest.split_at_mut(self.writer_index - self.reader_index);
        proof {
            assert(readable@ =~= old(self)@.readable());
            assert(tail@ =~= old(self)@.bytes.subrange(
                old(self)@.writer_index as int,
                old(self)@.capacity() as int,
            ));
            assert(head@ + (final(readable)@ + tail@) =~= head@ + final(readable)@ + tail@);
        }
        readable
    }

    /// The whole region, open to change, whatever the cursors say. What
    /// the caller leaves in it is what the view then holds.
    pub fn as_raw_slice(&mut self) -> (all: &mut [u8])
        ensures
            all@ == old(self)@.bytes,
            final(self)@ == (ViewState { bytes: final(all)@, ..old(self)@ }),
            final(final(self).region())@ == final(old(self).region())@,
    {
        self.buf
    }
}

} // verus!
