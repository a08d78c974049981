//! A read-only view over a borrowed byte region.

use vstd::prelude::*;
use crate::byte_order::{
    be_value, i128_of_bits, i16_of_bits, i32_of_bits, i64_of_bits, i8_of_bits, le_value,
    lemma_radix_values, radix, signed,
};
use crate::region::{copy_out, load_be, load_le, splice};
use crate::state::ViewState;

verus! {

/// A view of a `&[u8]` that reads integers from it, in sequence from a read
/// cursor or at any offset. The region stays the caller's; the view only
/// borrows it.
///
/// ```text
/// -----------------------------------------------------
/// |       |                         |                 |
/// -----------------------------------------------------
///         ^                         ^                 ^
///         |                         |                 |
///   reader_index              writer_index        capacity
/// ```
///
/// Sequential reads take bytes between the two cursors. Access by offset
/// reaches the whole region, whatever the cursors say.
#[derive(Debug)]
pub struct BufView<'a> {
    buf: &'a [u8],
    reader_index: usize,
    writer_index: usize,
}

impl<'a> View for BufView<'a> {
    type V = ViewState;

    closed spec fn view(&self) -> ViewState {
        ViewState {
            bytes: self.buf@,
            reader_index: self.reader_index as nat,
            writer_index: self.writer_index as nat,
        }
    }
}

impl<'a> BufView<'a> {
    /// The cursors are in order and inside the region.
    pub open spec fn wf(&self) -> bool {
        self@.wf()
    }

    /// Views `buf` with the read cursor at the start and the write cursor
    /// at the end: all of it is readable.
    pub fn wrap(buf: &'a [u8]) -> (view: Self)
        ensures
            view.wf(),
            view@ == (ViewState { bytes: buf@, reader_index: 0, writer_index: buf@.len() }),
    {
        let len = buf.len();
        BufView::wrap_with(buf, 0, len)
    }

    /// Views `buf` with the cursors at the given positions.
    pub fn wrap_with(buf: &'a [u8], reader_index: usize, writer_index: usize) -> (view: Self)
        requires
            reader_index <= writer_index <= buf@.len(),
        ensures
            view.wf(),
            view@ == (ViewState {
                bytes: buf@,
                reader_index: reader_index as nat,
                writer_index: writer_index as nat,
            }),
    {
        BufView { buf, reader_index, writer_index }
    }

    /// Takes the next `width` bytes as one number, most significant byte
    /// first, and moves the read cursor past them.
    fn take_be(&mut self, width: usize) -> (val: u128)
        requires
            old(self).wf(),
            width <= 16,
            old(self)@.remaining() >= width,
        ensures
            final(self).wf(),
            final(self)@ == old(self)@.advance(width as nat),
            val == be_value(old(self)@.front(width as int)),
            val < radix(width as nat),
    {
        assert(self.buf@.len() == self.buf.len());
        let val = load_be(self.buf, self.reader_index, width);
        self.reader_index = self.reader_index + width;
        val
    }

    /// Takes the next `width` bytes as one number, least significant byte
    /// first, and moves the read cursor past them.
    fn take_le(&mut self, width: usize) -> (val: u128)
        requires
            old(self).wf(),
            width <= 16,
            old(self)@.remaining() >= width,
        ensures
            final(self).wf(),
            final(self)@ == old(self)@.advance(width as nat),
            val == le_value(old(self)@.front(width as int)),
            val < radix(width as nat),
    {
        assert(self.buf@.len() == self.buf.len());
        let val = load_le(self.buf, self.reader_index, width);
        self.reader_index = self.reader_index + width;
        val
    }

    /// Reads the byte at the read cursor and moves the cursor past it.
    pub fn read_u8(&mut self) -> (val: u8)
        requires
            old(self).wf(),
            old(self)@.remaining() >= 1,
        ensures
            final(self).wf(),
            final(self)@ == old(self)@.advance(1),
            val == old(self)@.bytes[old(self)@.reader_index as int],
    {
        let val = self.buf[self.reader_index];
        self.reader_index += 1;
        val
    }

    /// Reads the byte at the read cursor as an `i8` in two's complement and
    /// moves the cursor past it.
    pub fn read_i8(&mut self) -> (val: i8)
        requires
            old(self).wf(),
            old(self)@.remaining() >= 1,
        ensures
            final(self).wf(),
            final(self)@ == old(self)@.advance(1),
            val == signed(old(self)@.bytes[old(self)@.reader_index as int] as nat, 1),
    {
        i8_of_bits(self.read_u8())
    }

    /// Reads the next two bytes as a big-endian `u16` and moves the read
    /// cursor past them.
    pub fn read_u16(&mut self) -> (val: u16)
        requires
            old(self).wf(),
            old(self)@.remaining() >= 2,
        ensures
            final(self).wf(),
            final(self)@ == old(self)@.advance(2),
            val == be_value(old(self)@.front(2)),
    {
        proof {
            lemma_radix_values();
        }
        self.take_be(2) as u16
    }

    /// Reads the next two bytes as a little-endian `u16` and moves the read
    /// cursor past them.
    pub fn read_u16_le(&mut self) -> (val: u16)
        requires
            old(self).wf(),
            old(self)@.remaining() >= 2,
        ensures
            final(self).wf(),
            final(self)@ == old(self)@.advance(2),
            val == le_value(old(self)@.front(2)),
    {
        proof {
            lemma_radix_values();
        }
        self.take_le(2) as u16
    }

    /// Reads the next two bytes as a big-endian `i16` and moves the read
    /// cursor past them.
    pub fn read_i16(&mut self) -> (val: i16)
        requires
            old(self).wf(),
            old(self)@.remaining() >= 2,
        ensures
            final(self).wf(),
            final(self)@ == old(self)@.advance(2),
            val == signed(be_value(old(self)@.front(2)), 2),
    {
        proof {
            lemma_radix_values();
        }
        i16_of_bits(self.take_be(2) as u16)
    }

    /// Reads the next two bytes as a little-endian `i16` and moves the read
    /// cursor past them.
    pub fn read_i16_le(&mut self) -> (val: i16)
        requires
            old(self).wf(),
            old(self)@.remaining() >= 2,
        ensures
            final(self).wf(),
            final(self)@ == old(self)@.advance(2),
            val == signed(le_value(old(self)@.front(2)), 2),
    {
        proof {
            lemma_radix_values();
        }
        i16_of_bits(self.take_le(2) as u16)
    }

    /// Reads the next four bytes as a big-endian `u32` and moves the read
    /// cursor past them.
    pub fn read_u32(&mut self) -> (val: u32)
        requires
            old(self).wf(),
            old(self)@.remaining() >= 4,
        ensures
            final(self).wf(),
            final(self)@ == old(self)@.advance(4),
            val == be_value(old(self)@.front(4)),
    {
        proof {
            lemma_radix_values();
        }
        self.take_be(4) as u32
    }

    /// Reads the next four bytes as a little-endian `u32` and moves the read
    /// cursor past them.
    pub fn read_u32_le(&mut self) -> (val: u32)
        requires
            old(self).wf(),
            old(self)@.remaining() >= 4,
        ensures
            final(self).wf(),
            final(self)@ == old(self)@.advance(4),
            val == le_value(old(self)@.front(4)),
    {
        proof {
            lemma_radix_values();
        }
        self.take_le(4) as u32
    }

    /// Reads the next four bytes as a big-endian `i32` and moves the read
    /// cursor past them.
    pub fn read_i32(&mut self) -> (val: i32)
        requires
            old(self).wf(),
            old(self)@.remaining() >= 4,
        ensures
            final(self).wf(),
            final(self)@ == old(self)@.advance(4),
            val == signed(be_value(old(self)@.front(4)), 4),
    {
        proof {
            lemma_radix_values();
        }
        i32_of_bits(self.take_be(4) as u32)
    }

    /// Reads the next four bytes as a little-endian `i32` and moves the read
    /// cursor past them.
    pub fn read_i32_le(&mut self) -> (val: i32)
        requires
            old(self).wf(),
            old(self)@.remaining() >= 4,
        ensures
            final(self).wf(),
            final(self)@ == old(self)@.advance(4),
            val == signed(le_value(old(self)@.front(4)), 4),
    {
        proof {
            lemma_radix_values();
        }
        i32_of_bits(self.take_le(4) as u32)
    }

    /// Reads the next eight bytes as a big-endian `u64` and moves the read
    /// cursor past them.
    pub fn read_u64(&mut self) -> (val: u64)
        requires
            old(self).wf(),
            old(self)@.remaining() >= 8,
        ensures
            final(self).wf(),
            final(self)@ == old(self)@.advance(8),
            val == be_value(old(self)@.front(8)),
    {
        proof {
            lemma_radix_values();
        }
        self.take_be(8) as u64
    }

    /// Reads the next eight bytes as a little-endian `u64` and moves the read
    /// cursor past them.
    pub fn read_u64_le(&mut self) -> (val: u64)
        requires
            old(self).wf(),
            old(self)@.remaining() >= 8,
        ensures
            final(self).wf(),
            final(self)@ == old(self)@.advance(8),
            val == le_value(old(self)@.front(8)),
    {
        proof {
            lemma_radix_values();
        }
        self.take_le(8) as u64
    }

    /// Reads the next eight bytes as a big-endian `i64` and moves the read
    /// cursor past them.
    pub fn read_i64(&mut self) -> (val: i64)
        requires
            old(self).wf(),
            old(self)@.remaining() >= 8,
        ensures
            final(self).wf(),
            final(self)@ == old(self)@.advance(8),
            val == signed(be_value(old(self)@.front(8)), 8),
    {
        proof {
            lemma_radix_values();
        }
        i64_of_bits(self.take_be(8) as u64)
    }

    /// Reads the next eight bytes as a little-endian `i64` and moves the read
    /// cursor past them.
    pub fn read_i64_le(&mut self) -> (val: i64)
        requires
            old(self).wf(),
            old(self)@.remaining() >= 8,
        ensures
            final(self).wf(),
            final(self)@ == old(self)@.advance(8),
            val == signed(le_value(old(self)@.front(8)), 8),
    {
        proof {
            lemma_radix_values();
        }
        i64_of_bits(self.take_le(8) as u64)
    }

    /// Reads the next sixteen bytes as a big-endian `u128` and moves the read
    /// cursor past them.
    pub fn read_u128(&mut self) -> (val: u128)
        requires
            old(self).wf(),
            old(self)@.remaining() >= 16,
        ensures
            final(self).wf(),
            final(self)@ == old(self)@.advance(16),
            val == be_value(old(self)@.front(16)),
    {
        self.take_be(16)
    }

    /// Reads the next sixteen bytes as a little-endian `u128` and moves the read
    /// cursor past them.
    pub fn read_u128_le(&mut self) -> (val: u128)
        requires
            old(self).wf(),
            old(self)@.remaining() >= 16,
        ensures
            final(self).wf(),
            final(self)@ == old(self)@.advance(16),
            val == le_value(old(self)@.front(16)),
    {
        self.take_le(16)
    }

    /// Reads the next sixteen bytes as a big-endian `i128` and moves the read
    /// cursor past them.
    pub fn read_i128(&mut self) -> (val: i128)
        requires
            old(self).wf(),
            old(self)@.remaining() >= 16,
        ensures
            final(self).wf(),
            final(self)@ == old(self)@.advance(16),
            val == signed(be_value(old(self)@.front(16)), 16),
    {
        i128_of_bits(self.take_be(16))
    }

    /// Reads the next sixteen bytes as a little-endian `i128` and moves the read
    /// cursor past them.
    pub fn read_i128_le(&mut self) -> (val: i128)
        requires
            old(self).wf(),
            old(self)@.remaining() >= 16,
        ensures
            final(self).wf(),
            final(self)@ == old(self)@.advance(16),
            val == signed(le_value(old(self)@.front(16)), 16),
    {
        i128_of_bits(self.take_le(16))
    }

    /// Fills `dest` with the next bytes and moves the read cursor past them.
    /// There must be enough bytes left to fill all of `dest`.
    pub fn read_bytes(&mut self, dest: &mut [u8]) -> (count: usize)
        requires
            old(self).wf(),
            old(self)@.remaining() >= old(dest)@.len(),
        ensures
            final(self).wf(),
            count == old(dest)@.len(),
            final(self)@ == old(self)@.advance(count as nat),
            final(dest)@ == old(self)@.front(count as int),
    {
        assert(self.buf@.len() == self.buf.len());
        let left = self.remaining();
        let copy_len = if dest.len() < left {
            dest.len()
        } else {
            left
        };
        copy_out(self.buf, self.reader_index, dest, copy_len);
        proof {
            assert(dest@ =~= old(self)@.front(copy_len as int));
        }
        self.reader_index = self.reader_index + copy_len;
        copy_len
    }

    /// The byte at `index`; no cursor moves.
    pub fn get_u8(&mut self, index: usize) -> (val: u8)
        requires
            index < old(self)@.capacity(),
        ensures
            final(self)@ == old(self)@,
            val == old(self)@.bytes[index as int],
    {
        self.buf[index]
    }

    /// The byte at `index` as an `i8` in two's complement; no cursor moves.
    pub fn get_i8(&mut self, index: usize) -> (val: i8)
        requires
            index < old(self)@.capacity(),
        ensures
            final(self)@ == old(self)@,
            val == signed(old(self)@.bytes[index as int] as nat, 1),
    {
        i8_of_bits(self.get_u8(index))
    }

    /// The two bytes from `index` on as a big-endian `u16`; no cursor
    /// moves.
    pub fn get_u16(&mut self, index: usize) -> (val: u16)
        requires
            index + 2 <= old(self)@.capacity(),
        ensures
            final(self)@ == old(self)@,
            val == be_value(old(self)@.span(index as int, 2)),
    {
        proof {
            lemma_radix_values();
        }
        load_be(self.buf, index, 2) as u16
    }

    /// The two bytes from `index` on as a little-endian `u16`; no cursor
    /// moves.
    pub fn get_u16_le(&mut self, index: usize) -> (val: u16)
        requires
            index + 2 <= old(self)@.capacity(),
        ensures
            final(self)@ == old(self)@,
            val == le_value(old(self)@.span(index as int, 2)),
    {
        proof {
            lemma_radix_values();
        }
        load_le(self.buf, index, 2) as u16
    }

    /// The two bytes from `index` on as a big-endian `i16`; no cursor
    /// moves.
    pub fn get_i16(&mut self, index: usize) -> (val: i16)
        requires
            index + 2 <= old(self)@.capacity(),
        ensures
            final(self)@ == old(self)@,
            val == signed(be_value(old(self)@.span(index as int, 2)), 2),
    {
        proof {
            lemma_radix_values();
        }
        i16_of_bits(load_be(self.buf, index, 2) as u16)
    }

    /// The two bytes from `index` on as a little-endian `i16`; no cursor
    /// moves.
    pub fn get_i16_le(&mut self, index: usize) -> (val: i16)
        requires
            index + 2 <= old(self)@.capacity(),
        ensures
            final(self)@ == old(self)@,
            val == signed(le_value(old(self)@.span(index as int, 2)), 2),
    {
        proof {
            lemma_radix_values();
        }
        i16_of_bits(load_le(self.buf, index, 2) as u16)
    }

    /// The four bytes from `index` on as a big-endian `u32`; no cursor
    /// moves.
    pub fn get_u32(&mut self, index: usize) -> (val: u32)
        requires
            index + 4 <= old(self)@.capacity(),
        ensures
            final(self)@ == old(self)@,
            val == be_value(old(self)@.span(index as int, 4)),
    {
        proof {
            lemma_radix_values();
        }
        load_be(self.buf, index, 4) as u32
    }

    /// The four bytes from `index` on as a little-endian `u32`; no cursor
    /// moves.
    pub fn get_u32_le(&mut self, index: usize) -> (val: u32)
        requires
            index + 4 <= old(self)@.capacity(),
        ensures
            final(self)@ == old(self)@,
            val == le_value(old(self)@.span(index as int, 4)),
    {
        proof {
            lemma_radix_values();
        }
        load_le(self.buf, index, 4) as u32
    }

    /// The four bytes from `index` on as a big-endian `i32`; no cursor
    /// moves.
    pub fn get_i32(&mut self, index: usize) -> (val: i32)
        requires
            index + 4 <= old(self)@.capacity(),
        ensures
            final(self)@ == old(self)@,
            val == signed(be_value(old(self)@.span(index as int, 4)), 4),
    {
        proof {
            lemma_radix_values();
        }
        i32_of_bits(load_be(self.buf, index, 4) as u32)
    }

    /// The four bytes from `index` on as a little-endian `i32`; no cursor
    /// moves.
    pub fn get_i32_le(&mut self, index: usize) -> (val: i32)
        requires
            index + 4 <= old(self)@.capacity(),
        ensures
            final(self)@ == old(self)@,
            val == signed(le_value(old(self)@.span(index as int, 4)), 4),
    {
        proof {
            lemma_radix_values();
        }
        i32_of_bits(load_le(self.buf, index, 4) as u32)
    }

    /// The eight bytes from `index` on as a big-endian `u64`; no cursor
    /// moves.
    pub fn get_u64(&mut self, index: usize) -> (val: u64)
        requires
            index + 8 <= old(self)@.capacity(),
        ensures
            final(self)@ == old(self)@,
            val == be_value(old(self)@.span(index as int, 8)),
    {
        proof {
            lemma_radix_values();
        }
        load_be(self.buf, index, 8) as u64
    }

    /// The eight bytes from `index` on as a little-endian `u64`; no cursor
    /// moves.
    pub fn get_u64_le(&mut self, index: usize) -> (val: u64)
        requires
            index + 8 <= old(self)@.capacity(),
        ensures
            final(self)@ == old(self)@,
            val == le_value(old(self)@.span(index as int, 8)),
    {
        proof {
            lemma_radix_values();
        }
        load_le(self.buf, index, 8) as u64
    }

    /// The eight bytes from `index` on as a big-endian `i64`; no cursor
    /// moves.
    pub fn get_i64(&mut self, index: usize) -> (val: i64)
        requires
            index + 8 <= old(self)@.capacity(),
        ensures
            final(self)@ == old(self)@,
            val == signed(be_value(old(self)@.span(index as int, 8)), 8),
    {
        proof {
            lemma_radix_values();
        }
        i64_of_bits(load_be(self.buf, index, 8) as u64)
    }

    /// The eight bytes from `index` on as a little-endian `i64`; no cursor
    /// moves.
    pub fn get_i64_le(&mut self, index: usize) -> (val: i64)
        requires
            index + 8 <= old(self)@.capacity(),
        ensures
            final(self)@ == old(self)@,
            val == signed(le_value(old(self)@.span(index as int, 8)), 8),
    {
        proof {
            lemma_radix_values();
        }
        i64_of_bits(load_le(self.buf, index, 8) as u64)
    }

    /// The sixteen bytes from `index` on as a big-endian `u128`; no cursor
    /// moves.
    pub fn get_u128(&mut self, index: usize) -> (val: u128)
        requires
            index + 16 <= old(self)@.capacity(),
        ensures
            final(self)@ == old(self)@,
            val == be_value(old(self)@.span(index as int, 16)),
    {
        load_be(self.buf, index, 16)
    }

    /// The sixteen bytes from `index` on as a little-endian `u128`; no cursor
    /// moves.
    pub fn get_u128_le(&mut self, index: usize) -> (val: u128)
        requires
            index + 16 <= old(self)@.capacity(),
        ensures
            final(self)@ == old(self)@,
            val == le_value(old(self)@.span(index as int, 16)),
    {
        load_le(self.buf, index, 16)
    }

    /// The sixteen bytes from `index` on as a big-endian `i128`; no cursor
    /// moves.
    pub fn get_i128(&mut self, index: usize) -> (val: i128)
        requires
            index + 16 <= old(self)@.capacity(),
        ensures
            final(self)@ == old(self)@,
            val == signed(be_value(old(self)@.span(index as int, 16)), 16),
    {
        i128_of_bits(load_be(self.buf, index, 16))
    }

    /// The sixteen bytes from `index` on as a little-endian `i128`; no cursor
    /// moves.
    pub fn get_i128_le(&mut self, index: usize) -> (val: i128)
        requires
            index + 16 <= old(self)@.capacity(),
        ensures
            final(self)@ == old(self)@,
            val == signed(le_value(old(self)@.span(index as int, 16)), 16),
    {
        i128_of_bits(load_le(self.buf, index, 16))
    }

    /// Copies the bytes from `index` on to the front of `dest`, as many as
    /// `dest` takes and the region has; the rest of `dest` stays as it is. No
    /// cursor moves.
    pub fn get_bytes(&mut self, index: usize, dest: &mut [u8]) -> (count: usize)
        requires
            index < old(self)@.capacity(),
        ensures
            final(self)@ == old(self)@,
            count == if index + old(dest)@.len() <= old(self)@.capacity() {
                old(dest)@.len() as int
            } else {
                old(self)@.capacity() - index
            },
            final(dest)@ == splice(old(dest)@, 0, old(self)@.span(index as int, count as int)),
    {
        let reach = self.buf.len() - index;
        let copy_len = if dest.len() <= reach {
            dest.len()
        } else {
            reach
        };
        copy_out(self.buf, index, dest, copy_len);
        copy_len
    }

    /// Moves the read cursor to `index`.
    pub fn set_reader_index(&mut self, index: usize)
        requires
            old(self).wf(),
            index <= old(self)@.writer_index,
        ensures
            final(self).wf(),
            final(self)@ == old(self)@.with_indices(index as nat, old(self)@.writer_index),
    {
        self.reader_index = index;
    }

    /// The position of the next sequential read.
    pub fn reader_index(&self) -> (index: usize)
        ensures
            index == self@.reader_index,
    {
        self.reader_index
    }

    /// Moves the write cursor to `index`.
    pub fn set_writer_index(&mut self, index: usize)
        requires
            old(self).wf(),
            old(self)@.reader_index <= index <= old(self)@.capacity(),
        ensures
            final(self).wf(),
            final(self)@ == old(self)@.with_indices(old(self)@.reader_index, index as nat),
    {
        self.writer_index = index;
    }

    /// The position where the readable bytes end.
    pub fn writer_index(&self) -> (index: usize)
        ensures
            index == self@.writer_index,
    {
        self.writer_index
    }

    /// Moves both cursors.
    pub fn set_index(&mut self, reader_index: usize, writer_index: usize)
        requires
            reader_index <= writer_index <= old(self)@.capacity(),
        ensures
            final(self).wf(),
            final(self)@ == old(self)@.with_indices(reader_index as nat, writer_index as nat),
    {
        self.reader_index = reader_index;
        self.writer_index = writer_index;
    }

    /// Moves both cursors to the start of the region; the bytes stay as they
    /// are.
    pub fn clear(&mut self)
        ensures
            final(self).wf(),
            final(self)@ == old(self)@.with_indices(0, 0),
    {
        self.reader_index = 0;
        self.writer_index = 0;
    }

    /// The number of bytes between the read cursor and the write cursor.
    pub fn remaining(&self) -> (count: usize)
        requires
            self.wf(),
        ensures
            count == self@.writer_index - self@.reader_index,
            count == self@.remaining(),
    {
        self.writer_index - self.reader_index
    }

    /// The length of the whole region.
    pub fn capacity(&self) -> (count: usize)
        ensures
            count == self@.capacity(),
    {
        self.buf.len()
    }

    /// The bytes between the two cursors.
    pub fn as_slice(&mut self) -> (readable: &[u8])
        requires
            old(self).wf(),
        ensures
            final(self)@ == old(self)@,
            readable@ == old(self)@.readable(),
    {
        &self.buf[self.reader_index..self.writer_index]
    }

    /// The whole region, whatever the cursors say.
    pub fn as_raw_slice(&mut self) -> (all: &[u8])
        ensures
            final(self)@ == old(self)@,
            all@ == old(self)@.bytes,
    {
        self.buf
    }
}

} // verus!
