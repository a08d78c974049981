//! The mathematical state of a view: the bytes of its region and its two
//! cursors, with the steps that the operations of a view take on it.

use vstd::prelude::*;
use crate::byte_order::{
    be_bytes, be_value, le_bytes, le_value, lemma_be_round_trip, lemma_bytes_len,
    lemma_bytes_of_value, lemma_le_round_trip, lemma_signed_round_trip, radix, signed, unsigned,
};
use crate::region::splice;

verus! {

/// What a view is, as a value: the bytes of the whole region it borrows,
/// and the positions of its read and write cursors.
pub struct ViewState {
    pub bytes: Seq<u8>,
    pub reader_index: nat,
    pub writer_index: nat,
}

impl ViewState {
    /// The cursors are in order and inside the region.
    pub open spec fn wf(self) -> bool {
        self.reader_index <= self.writer_index <= self.bytes.len()
    }

    /// The length of the region.
    pub open spec fn capacity(self) -> nat {
        self.bytes.len()
    }

    /// The number of bytes that sequential reads can still take.
    pub open spec fn remaining(self) -> nat {
        (self.writer_index - self.reader_index) as nat
    }

    /// The number of bytes that sequential writes can still add.
    pub open spec fn room(self) -> nat {
        (self.bytes.len() - self.writer_index) as nat
    }

    /// The `n` bytes of the region from `index` on.
    pub open spec fn span(self, index: int, n: int) -> Seq<u8> {
        self.bytes.subrange(index, index + n)
    }

    /// The `n` bytes that the next sequential read takes.
    pub open spec fn front(self, n: int) -> Seq<u8> {
        self.span(self.reader_index as int, n)
    }

    /// The bytes between the two cursors.
    pub open spec fn readable(self) -> Seq<u8> {
        self.bytes.subrange(self.reader_index as int, self.writer_index as int)
    }

    /// The state after a sequential read of `n` bytes.
    pub open spec fn advance(self, n: nat) -> ViewState {
        ViewState { reader_index: self.reader_index + n, ..self }
    }

    /// The state after `src` is stored from `index` on; no cursor moves.
    pub open spec fn put(self, index: int, src: Seq<u8>) -> ViewState {
        ViewState { bytes: splice(self.bytes, index, src), ..self }
    }

    /// The state after a sequential write of `src`.
    pub open spec fn append(self, src: Seq<u8>) -> ViewState {
        ViewState {
            writer_index: self.writer_index + src.len(),
            ..self.put(self.writer_index as int, src)
        }
    }

    /// The state with both cursors moved.
    pub open spec fn with_indices(self, reader_index: nat, writer_index: nat) -> ViewState {
        ViewState { reader_index, writer_index, ..self }
    }
}

/// A sequential read of `n` bytes, where `n` bytes remain, moves the read
/// cursor by exactly `n`, never past the write cursor, and leaves `n` fewer
/// bytes to read.
pub proof fn lemma_read_steps(s: ViewState, n: nat)
    requires
        s.wf(),
        n <= s.remaining(),
    ensures
        s.advance(n).wf(),
        s.advance(n).reader_index == s.reader_index + n,
        s.advance(n).reader_index <= s.writer_index,
        s.advance(n).writer_index == s.writer_index,
        s.advance(n).bytes == s.bytes,
        s.advance(n).remaining() == s.remaining() - n,
        s.advance(n).remaining() == s.advance(n).writer_index - s.advance(n).reader_index,
{
}

/// A sequential write of `src`, where the region has room for it, moves the
/// write cursor by exactly the length of `src`, never past the end of the
/// region, and leaves that many more bytes to read. The region keeps its
/// length, and the bytes outside the written run stay as they were.
pub proof fn lemma_write_steps(s: ViewState, src: Seq<u8>)
    requires
        s.wf(),
        src.len() <= s.room(),
    ensures
        s.append(src).wf(),
        s.append(src).writer_index == s.writer_index + src.len(),
        s.append(src).writer_index <= s.capacity(),
        s.append(src).reader_index == s.reader_index,
        s.append(src).capacity() == s.capacity(),
        s.append(src).remaining() == s.remaining() + src.len(),
        s.append(src).remaining() == s.append(src).writer_index - s.append(src).reader_index,
        s.append(src).span(s.writer_index as int, src.len() as int) == src,
        forall|i: int|
            0 <= i < s.capacity() && !(s.writer_index <= i < s.writer_index + src.len())
                ==> s.append(src).bytes[i] == s.bytes[i],
{
    assert(s.append(src).span(s.writer_index as int, src.len() as int) =~= src);
}

/// What is written becomes readable, after what was readable before.
pub proof fn lemma_written_is_readable(s: ViewState, src: Seq<u8>)
    requires
        s.wf(),
        src.len() <= s.room(),
    ensures
        s.append(src).readable() == s.readable() + src,
{
    assert(s.append(src).readable() =~= s.readable() + src);
}

/// Storing `src` at an offset moves no cursor, keeps the length of the
/// region, puts `src` where it was asked to go and changes no other byte.
pub proof fn lemma_put_steps(s: ViewState, index: nat, src: Seq<u8>)
    requires
        index + src.len() <= s.capacity(),
    ensures
        s.put(index as int, src).reader_index == s.reader_index,
        s.put(index as int, src).writer_index == s.writer_index,
        s.put(index as int, src).capacity() == s.capacity(),
        s.put(index as int, src).span(index as int, src.len() as int) == src,
        forall|i: int|
            0 <= i < s.capacity() && !(index <= i < index + src.len()) ==> s.put(
                index as int,
                src,
            ).bytes[i] == s.bytes[i],
{
    assert(s.put(index as int, src).span(index as int, src.len() as int) =~= src);
}

/// On a view with nothing left to read, the bytes of a sequential write are
/// exactly what the next sequential read of that length takes, and after it
/// nothing is left to read again.
pub proof fn lemma_write_then_read_bytes(s: ViewState, src: Seq<u8>)
    requires
        s.wf(),
        s.remaining() == 0,
        src.len() <= s.room(),
    ensures
        s.append(src).remaining() == src.len(),
        s.append(src).front(src.len() as int) == src,
        s.append(src).advance(src.len()).remaining() == 0,
{
    assert(s.append(src).front(src.len() as int) =~= src);
}

/// On a view with nothing left to read, an unsigned value written in `n`
/// bytes is the value that the next read of `n` bytes in the same byte order
/// returns, for every value that fits `n` bytes.
pub proof fn lemma_write_then_read(s: ViewState, v: nat, n: nat)
    requires
        s.wf(),
        s.remaining() == 0,
        n <= s.room(),
        v < radix(n),
    ensures
        s.append(be_bytes(v, n)).remaining() == n,
        be_value(s.append(be_bytes(v, n)).front(n as int)) == v,
        s.append(le_bytes(v, n)).remaining() == n,
        le_value(s.append(le_bytes(v, n)).front(n as int)) == v,
{
    lemma_bytes_len(v, n);
    lemma_be_round_trip(v, n);
    lemma_le_round_trip(v, n);
    lemma_write_then_read_bytes(s, be_bytes(v, n));
    lemma_write_then_read_bytes(s, le_bytes(v, n));
}

/// On a view with nothing left to read, a signed value written in `n` bytes
/// is the value that the next signed read of `n` bytes in the same byte order
/// returns, for every value that `n` bytes hold in two's complement.
pub proof fn lemma_write_then_read_signed(s: ViewState, v: int, n: nat)
    requires
        s.wf(),
        s.remaining() == 0,
        n <= s.room(),
        -(radix(n) as int) <= 2 * v < radix(n),
    ensures
        s.append(be_bytes(unsigned(v, n), n)).remaining() == n,
        signed(be_value(s.append(be_bytes(unsigned(v, n), n)).front(n as int)), n) == v,
        s.append(le_bytes(unsigned(v, n), n)).remaining() == n,
        signed(le_value(s.append(le_bytes(unsigned(v, n), n)).front(n as int)), n) == v,
{
    lemma_signed_round_trip(v, n);
    lemma_write_then_read(s, unsigned(v, n), n);
}

/// An unsigned value stored in `n` bytes at an offset is the value that a
/// get of `n` bytes at that offset in the same byte order returns, whatever
/// the region held and wherever the cursors stand.
pub proof fn lemma_set_then_get(s: ViewState, index: nat, v: nat, n: nat)
    requires
        index + n <= s.capacity(),
        v < radix(n),
    ensures
        be_value(s.put(index as int, be_bytes(v, n)).span(index as int, n as int)) == v,
        le_value(s.put(index as int, le_bytes(v, n)).span(index as int, n as int)) == v,
{
    lemma_bytes_len(v, n);
    lemma_be_round_trip(v, n);
    lemma_le_round_trip(v, n);
    lemma_put_steps(s, index, be_bytes(v, n));
    lemma_put_steps(s, index, le_bytes(v, n));
}

/// A signed value stored in `n` bytes at an offset is the value that a
/// signed get of `n` bytes at that offset in the same byte order returns.
pub proof fn lemma_set_then_get_signed(s: ViewState, index: nat, v: int, n: nat)
    requires
        index + n <= s.capacity(),
        -(radix(n) as int) <= 2 * v < radix(n),
    ensures
        signed(
            be_value(s.put(index as int, be_bytes(unsigned(v, n), n)).span(index as int, n as int)),
            n,
        ) == v,
        signed(
            le_value(s.put(index as int, le_bytes(unsigned(v, n), n)).span(index as int, n as int)),
            n,
        ) == v,
{
    lemma_signed_round_trip(v, n);
    lemma_set_then_get(s, index, unsigned(v, n), n);
}

/// Storing back the value that a get returned leaves the region as it was,
/// in either byte order.
pub proof fn lemma_get_then_set(s: ViewState, index: nat, n: nat)
    requires
        index + n <= s.capacity(),
    ensures
        s.put(index as int, be_bytes(be_value(s.span(index as int, n as int)), n)) == s,
        s.put(index as int, le_bytes(le_value(s.span(index as int, n as int)), n)) == s,
{
    let run = s.span(index as int, n as int);
    lemma_bytes_of_value(run);
    assert(splice(s.bytes, index as int, run) =~= s.bytes);
}

} // verus!
