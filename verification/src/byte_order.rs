//! Positional byte encodings of integers: what a run of bytes means as a
//! number in either byte order, what bytes a number is written as, and how
//! signed values and bit patterns correspond in two's complement.

use vstd::prelude::*;

verus! {

/// The number of values that `n` bytes can hold: 256 to the power `n`.
pub open spec fn radix(n: nat) -> nat
    decreases n,
{
    if n == 0 {
        1
    } else {
        256 * radix((n - 1) as nat)
    }
}

/// The number that `bytes` spell when the first byte is the most significant.
pub open spec fn be_value(bytes: Seq<u8>) -> nat
    decreases bytes.len(),
{
    if bytes.len() == 0 {
        0
    } else {
        256 * be_value(bytes.drop_last()) + bytes.last() as nat
    }
}

/// The number that `bytes` spell when the first byte is the least significant.
pub open spec fn le_value(bytes: Seq<u8>) -> nat
    decreases bytes.len(),
{
    if bytes.len() == 0 {
        0
    } else {
        bytes.first() as nat + 256 * le_value(bytes.drop_first())
    }
}

/// The `n` low-order bytes of `v`, most significant byte first.
pub open spec fn be_bytes(v: nat, n: nat) -> Seq<u8>
    decreases n,
{
    if n == 0 {
        Seq::empty()
    } else {
        be_bytes(v / 256, (n - 1) as nat).push((v % 256) as u8)
    }
}

/// The `n` low-order bytes of `v`, least significant byte first.
pub open spec fn le_bytes(v: nat, n: nat) -> Seq<u8>
    decreases n,
{
    if n == 0 {
        Seq::empty()
    } else {
        seq![(v % 256) as u8] + le_bytes(v / 256, (n - 1) as nat)
    }
}

/// The two's-complement reading of an `n`-byte pattern `bits`.
pub open spec fn signed(bits: nat, n: nat) -> int {
    if 2 * bits < radix(n) {
        bits as int
    } else {
        bits - radix(n)
    }
}

/// The `n`-byte two's-complement pattern of `v`.
pub open spec fn unsigned(v: int, n: nat) -> nat {
    if v >= 0 {
        v as nat
    } else {
        (v + radix(n)) as nat
    }
}

/// The radix of each width that the views offer.
pub proof fn lemma_radix_values()
    ensures
        radix(0) == 1,
        radix(1) == 0x100,
        radix(2) == 0x1_0000,
        radix(4) == 0x1_0000_0000,
        radix(8) == 0x1_0000_0000_0000_0000,
        radix(16) == 0x1_0000_0000_0000_0000_0000_0000_0000_0000,
{
    reveal_with_fuel(radix, 17);
}

/// More bytes hold at least as many values.
pub proof fn lemma_radix_mono(a: nat, b: nat)
    requires
        a <= b,
    ensures
        0 < radix(a) <= radix(b),
    decreases b,
{
    if a < b {
        lemma_radix_mono(a, (b - 1) as nat);
    } else if a > 0 {
        lemma_radix_mono((a - 1) as nat, (b - 1) as nat);
    }
}

/// A big-endian value fits the width of its bytes.
pub proof fn lemma_be_value_bound(bytes: Seq<u8>)
    ensures
        be_value(bytes) < radix(bytes.len()),
    decreases bytes.len(),
{
    if bytes.len() > 0 {
        lemma_be_value_bound(bytes.drop_last());
    }
}

/// A little-endian value fits the width of its bytes.
pub proof fn lemma_le_value_bound(bytes: Seq<u8>)
    ensures
        le_value(bytes) < radix(bytes.len()),
    decreases bytes.len(),
{
    if bytes.len() > 0 {
        lemma_le_value_bound(bytes.drop_first());
    }
}

/// An encoding has the width that was asked for.
pub proof fn lemma_bytes_len(v: nat, n: nat)
    ensures
        be_bytes(v, n).len() == n,
        le_bytes(v, n).len() == n,
    decreases n,
{
    if n > 0 {
        lemma_bytes_len(v / 256, (n - 1) as nat);
    }
}

/// Decoding a big-endian encoding gives the value back, when the value fits
/// the width.
pub proof fn lemma_be_round_trip(v: nat, n: nat)
    requires
        v < radix(n),
    ensures
        be_value(be_bytes(v, n)) == v,
    decreases n,
{
    if n > 0 {
        let rest = be_bytes(v / 256, (n - 1) as nat);
        lemma_bytes_len(v / 256, (n - 1) as nat);
        lemma_be_round_trip(v / 256, (n - 1) as nat);
        assert(be_bytes(v, n).drop_last() == rest);
    }
}

/// Decoding a little-endian encoding gives the value back, when the value
/// fits the width.
pub proof fn lemma_le_round_trip(v: nat, n: nat)
    requires
        v < radix(n),
    ensures
        le_value(le_bytes(v, n)) == v,
    decreases n,
{
    if n > 0 {
        let rest = le_bytes(v / 256, (n - 1) as nat);
        lemma_le_round_trip(v / 256, (n - 1) as nat);
        assert(le_bytes(v, n).drop_first() == rest);
    }
}

/// Encoding a decoded run of bytes gives the bytes back, in either order.
pub proof fn lemma_bytes_of_value(bytes: Seq<u8>)
    ensures
        be_bytes(be_value(bytes), bytes.len()) == bytes,
        le_bytes(le_value(bytes), bytes.len()) == bytes,
    decreases bytes.len(),
{
    if bytes.len() > 0 {
        lemma_bytes_of_value(bytes.drop_last());
        lemma_bytes_of_value(bytes.drop_first());
        assert(be_bytes(be_value(bytes), bytes.len()) =~= bytes);
        assert(le_bytes(le_value(bytes), bytes.len()) =~= bytes);
    }
}

/// One more byte at the end of a big-endian run shifts what came before it
/// by one byte.
pub proof fn lemma_be_value_prefix(bytes: Seq<u8>, k: int)
    requires
        0 <= k < bytes.len(),
    ensures
        be_value(bytes.subrange(0, k + 1)) == 256 * be_value(bytes.subrange(0, k)) + bytes[k],
{
    assert(bytes.subrange(0, k + 1).drop_last() == bytes.subrange(0, k));
}

/// One more byte at the start of a little-endian run shifts what comes after
/// it by one byte.
pub proof fn lemma_le_value_suffix(bytes: Seq<u8>, k: int)
    requires
        0 <= k < bytes.len(),
    ensures
        le_value(bytes.subrange(k, bytes.len() as int)) == bytes[k] + 256 * le_value(
            bytes.subrange(k + 1, bytes.len() as int),
        ),
{
    assert(bytes.subrange(k, bytes.len() as int).drop_first() == bytes.subrange(
        k + 1,
        bytes.len() as int,
    ));
}

/// The value of two bytes in either order, written out byte by byte.
pub proof fn lemma_value_of_two(bytes: Seq<u8>)
    requires
        bytes.len() == 2,
    ensures
        be_value(bytes) == bytes[0] * 0x100
            + bytes[1],
        le_value(bytes) == bytes[0]
            + bytes[1] * 0x100,
{
    lemma_be_value_prefix(bytes, 0);
    lemma_le_value_suffix(bytes, 0);
    lemma_be_value_prefix(bytes, 1);
    lemma_le_value_suffix(bytes, 1);
    assert(bytes.subrange(0, 2) == bytes);
    assert(be_value(bytes.subrange(0, 0)) == 0);
    assert(le_value(bytes.subrange(2, 2)) == 0);
}

/// The value of four bytes in either order, written out byte by byte.
pub proof fn lemma_value_of_four(bytes: Seq<u8>)
    requires
        bytes.len() == 4,
    ensures
        be_value(bytes) == bytes[0] * 0x100_0000
            + bytes[1] * 0x1_0000
            + bytes[2] * 0x100
            + bytes[3],
        le_value(bytes) == bytes[0]
            + bytes[1] * 0x100
            + bytes[2] * 0x1_0000
            + bytes[3] * 0x100_0000,
{
    lemma_be_value_prefix(bytes, 0);
    lemma_le_value_suffix(bytes, 0);
    lemma_be_value_prefix(bytes, 1);
    lemma_le_value_suffix(bytes, 1);
    lemma_be_value_prefix(bytes, 2);
    lemma_le_value_suffix(bytes, 2);
    lemma_be_value_prefix(bytes, 3);
    lemma_le_value_suffix(bytes, 3);
    assert(bytes.subrange(0, 4) == bytes);
    assert(be_value(bytes.subrange(0, 0)) == 0);
    assert(le_value(bytes.subrange(4, 4)) == 0);
}

/// The value of eight bytes in either order, written out byte by byte.
pub proof fn lemma_value_of_eight(bytes: Seq<u8>)
    requires
        bytes.len() == 8,
    ensures
        be_value(bytes) == bytes[0] * 0x100_0000_0000_0000
            + bytes[1] * 0x1_0000_0000_0000
            + bytes[2] * 0x100_0000_0000
            + bytes[3] * 0x1_0000_0000
            + bytes[4] * 0x100_0000
            + bytes[5] * 0x1_0000
            + bytes[6] * 0x100
            + bytes[7],
        le_value(bytes) == bytes[0]
            + bytes[1] * 0x100
            + bytes[2] * 0x1_0000
            + bytes[3] * 0x100_0000
            + bytes[4] * 0x1_0000_0000
            + bytes[5] * 0x100_0000_0000
            + bytes[6] * 0x1_0000_0000_0000
            + bytes[7] * 0x100_0000_0000_0000,
{
    lemma_be_value_prefix(bytes, 0);
    lemma_le_value_suffix(bytes, 0);
    lemma_be_value_prefix(bytes, 1);
    lemma_le_value_suffix(bytes, 1);
    lemma_be_value_prefix(bytes, 2);
    lemma_le_value_suffix(bytes, 2);
    lemma_be_value_prefix(bytes, 3);
    lemma_le_value_suffix(bytes, 3);
    lemma_be_value_prefix(bytes, 4);
    lemma_le_value_suffix(bytes, 4);
    lemma_be_value_prefix(bytes, 5);
    lemma_le_value_suffix(bytes, 5);
    lemma_be_value_prefix(bytes, 6);
    lemma_le_value_suffix(bytes, 6);
    lemma_be_value_prefix(bytes, 7);
    lemma_le_value_suffix(bytes, 7);
    assert(bytes.subrange(0, 8) == bytes);
    assert(be_value(bytes.subrange(0, 0)) == 0);
    assert(le_value(bytes.subrange(8, 8)) == 0);
}

/// The value of sixteen bytes in either order, written out byte by byte.
pub proof fn lemma_value_of_sixteen(bytes: Seq<u8>)
    requires
        bytes.len() == 16,
    ensures
        be_value(bytes) == bytes[0] * 0x100_0000_0000_0000_0000_0000_0000_0000
            + bytes[1] * 0x1_0000_0000_0000_0000_0000_0000_0000
            + bytes[2] * 0x100_0000_0000_0000_0000_0000_0000
            + bytes[3] * 0x1_0000_0000_0000_0000_0000_0000
            + bytes[4] * 0x100_0000_0000_0000_0000_0000
            + bytes[5] * 0x1_0000_0000_0000_0000_0000
            + bytes[6] * 0x100_0000_0000_0000_0000
            + bytes[7] * 0x1_0000_0000_0000_0000
            + bytes[8] * 0x100_0000_0000_0000
            + bytes[9] * 0x1_0000_0000_0000
            + bytes[10] * 0x100_0000_0000
            + bytes[11] * 0x1_0000_0000
            + bytes[12] * 0x100_0000
            + bytes[13] * 0x1_0000
            + bytes[14] * 0x100
            + bytes[15],
        le_value(bytes) == bytes[0]
            + bytes[1] * 0x100
            + bytes[2] * 0x1_0000
            + bytes[3] * 0x100_0000
            + bytes[4] * 0x1_0000_0000
            + bytes[5] * 0x100_0000_0000
            + bytes[6] * 0x1_0000_0000_0000
            + bytes[7] * 0x100_0000_0000_0000
            + bytes[8] * 0x1_0000_0000_0000_0000
            + bytes[9] * 0x100_0000_0000_0000_0000
            + bytes[10] * 0x1_0000_0000_0000_0000_0000
            + bytes[11] * 0x100_0000_0000_0000_0000_0000
            + bytes[12] * 0x1_0000_0000_0000_0000_0000_0000
            + bytes[13] * 0x100_0000_0000_0000_0000_0000_0000
            + bytes[14] * 0x1_0000_0000_0000_0000_0000_0000_0000
            + bytes[15] * 0x100_0000_0000_0000_0000_0000_0000_0000,
{
    lemma_be_value_prefix(bytes, 0);
    lemma_le_value_suffix(bytes, 0);
    lemma_be_value_prefix(bytes, 1);
    lemma_le_value_suffix(bytes, 1);
    lemma_be_value_prefix(bytes, 2);
    lemma_le_value_suffix(bytes, 2);
    lemma_be_value_prefix(bytes, 3);
    lemma_le_value_suffix(bytes, 3);
    lemma_be_value_prefix(bytes, 4);
    lemma_le_value_suffix(bytes, 4);
    lemma_be_value_prefix(bytes, 5);
    lemma_le_value_suffix(bytes, 5);
    lemma_be_value_prefix(bytes, 6);
    lemma_le_value_suffix(bytes, 6);
    lemma_be_value_prefix(bytes, 7);
    lemma_le_value_suffix(bytes, 7);
    lemma_be_value_prefix(bytes, 8);
    lemma_le_value_suffix(bytes, 8);
    lemma_be_value_prefix(bytes, 9);
    lemma_le_value_suffix(bytes, 9);
    lemma_be_value_prefix(bytes, 10);
    lemma_le_value_suffix(bytes, 10);
    lemma_be_value_prefix(bytes, 11);
    lemma_le_value_suffix(bytes, 11);
    lemma_be_value_prefix(bytes, 12);
    lemma_le_value_suffix(bytes, 12);
    lemma_be_value_prefix(bytes, 13);
    lemma_le_value_suffix(bytes, 13);
    lemma_be_value_prefix(bytes, 14);
    lemma_le_value_suffix(bytes, 14);
    lemma_be_value_prefix(bytes, 15);
    lemma_le_value_suffix(bytes, 15);
    assert(bytes.subrange(0, 16) == bytes);
    assert(be_value(bytes.subrange(0, 0)) == 0);
    assert(le_value(bytes.subrange(16, 16)) == 0);
}

/// A two's-complement pattern fits its width and reads back as the value it
/// was made from, for every value that the width can hold.
pub proof fn lemma_signed_round_trip(v: int, n: nat)
    requires
        -(radix(n) as int) <= 2 * v < radix(n),
    ensures
        unsigned(v, n) < radix(n),
        signed(unsigned(v, n), n) == v,
{
}

/// Reads a `u8` bit pattern as the `i8` in two's complement.
pub fn i8_of_bits(bits: u8) -> (val: i8)
    ensures
        val == signed(bits as nat, 1),
{
    let val = #[verifier::truncate] (bits as i8);
    proof {
        lemma_radix_values();
        assert(val == if bits < 0x80u8 {
            bits as int
        } else {
            bits - 0x100
        }) by (bit_vector)
            requires
                val == bits as i8,
        ;
    }
    val
}

/// Reads a `u16` bit pattern as the `i16` in two's complement.
pub fn i16_of_bits(bits: u16) -> (val: i16)
    ensures
        val == signed(bits as nat, 2),
{
    let val = #[verifier::truncate] (bits as i16);
    proof {
        lemma_radix_values();
        assert(val == if bits < 0x8000u16 {
            bits as int
        } else {
            bits - 0x1_0000
        }) by (bit_vector)
            requires
                val == bits as i16,
        ;
    }
    val
}

/// The two's-complement bit pattern of an `i16`.
pub fn bits_of_i16(val: i16) -> (bits: u16)
    ensures
        bits == unsigned(val as int, 2),
{
    let bits = #[verifier::truncate] (val as u16);
    proof {
        lemma_radix_values();
        assert(bits == if val >= 0 {
            val as int
        } else {
            val + 0x1_0000
        }) by (bit_vector)
            requires
                bits == val as u16,
        ;
    }
    bits
}

/// Reads a `u32` bit pattern as the `i32` in two's complement.
pub fn i32_of_bits(bits: u32) -> (val: i32)
    ensures
        val == signed(bits as nat, 4),
{
    let val = #[verifier::truncate] (bits as i32);
    proof {
        lemma_radix_values();
        assert(val == if bits < 0x8000_0000u32 {
            bits as int
        } else {
            bits - 0x1_0000_0000
        }) by (bit_vector)
            requires
                val == bits as i32,
        ;
    }
    val
}

/// The two's-complement bit pattern of an `i32`.
pub fn bits_of_i32(val: i32) -> (bits: u32)
    ensures
        bits == unsigned(val as int, 4),
{
    let bits = #[verifier::truncate] (val as u32);
    proof {
        lemma_radix_values();
        assert(bits == if val >= 0 {
            val as int
        } else {
            val + 0x1_0000_0000
        }) by (bit_vector)
            requires
                bits == val as u32,
        ;
    }
    bits
}

/// Reads a `u64` bit pattern as the `i64` in two's complement.
pub fn i64_of_bits(bits: u64) -> (val: i64)
    ensures
        val == signed(bits as nat, 8),
{
    let val = #[verifier::truncate] (bits as i64);
    proof {
        lemma_radix_values();
        assert(val == if bits < 0x8000_0000_0000_0000u64 {
            bits as int
        } else {
            bits - 0x1_0000_0000_0000_0000
        }) by (bit_vector)
            requires
                val == bits as i64,
        ;
    }
    val
}

/// The two's-complement bit pattern of an `i64`.
pub fn bits_of_i64(val: i64) -> (bits: u64)
    ensures
        bits == unsigned(val as int, 8),
{
    let bits = #[verifier::truncate] (val as u64);
    proof {
        lemma_radix_values();
        assert(bits == if val >= 0 {
            val as int
        } else {
            val + 0x1_0000_0000_0000_0000
        }) by (bit_vector)
            requires
                bits == val as u64,
        ;
    }
    bits
}

/// Reads a `u128` bit pattern as the `i128` in two's complement.
pub fn i128_of_bits(bits: u128) -> (val: i128)
    ensures
        val == signed(bits as nat, 16),
{
    let val = #[verifier::truncate] (bits as i128);
    proof {
        lemma_radix_values();
        assert(val == if bits < 0x8000_0000_0000_0000_0000_0000_0000_0000u128 {
            bits as int
        } else {
            bits - 0x1_0000_0000_0000_0000_0000_0000_0000_0000
        }) by (bit_vector)
            requires
                val == bits as i128,
        ;
    }
    val
}

/// The two's-complement bit pattern of an `i128`.
pub fn bits_of_i128(val: i128) -> (bits: u128)
    ensures
        bits == unsigned(val as int, 16),
{
    let bits = #[verifier::truncate] (val as u128);
    proof {
        lemma_radix_values();
        assert(bits == if val >= 0 {
            val as int
        } else {
            val + 0x1_0000_0000_0000_0000_0000_0000_0000_0000
        }) by (bit_vector)
            requires
                bits == val as u128,
        ;
    }
    bits
}

} // verus!
