//! Access to runs of bytes inside a slice: copying them in and out, and
//! reading and writing them as integers of up to sixteen bytes.

use vstd::prelude::*;
use crate::byte_order::{
    be_bytes, be_value, le_bytes, le_value, lemma_be_value_bound, lemma_be_value_prefix,
    lemma_bytes_len, lemma_le_value_bound, lemma_le_value_suffix, lemma_radix_mono,
    lemma_radix_values, radix,
};

verus! {

/// `base` with the run of bytes from `at` on replaced by `src`.
pub open spec fn splice(base: Seq<u8>, at: int, src: Seq<u8>) -> Seq<u8> {
    base.subrange(0, at) + src + base.subrange(at + src.len(), base.len() as int)
}

/// Reads `width` bytes of `buf` from `index` on as one number, most
/// significant byte first.
pub fn load_be(buf: &[u8], index: usize, width: usize) -> (val: u128)
    requires
        width <= 16,
        index + width <= buf@.len(),
    ensures
        val == be_value(buf@.subrange(index as int, index + width)),
        val < radix(width as nat),
{
    let ghost run = buf@.subrange(index as int, index + width);
    let mut val: u128 = 0;
    let mut i: usize = 0;
    while i < width
        invariant
            i <= width <= 16,
            index + width <= buf.len(),
            run == buf@.subrange(index as int, index + width),
            val == be_value(run.subrange(0, i as int)),
        decreases width - i,
    {
        proof {
            lemma_be_value_prefix(run, i as int);
            lemma_be_value_bound(run.subrange(0, i + 1));
            lemma_radix_mono(i as nat + 1, 16);
            lemma_radix_values();
        }
        val = val * 256 + buf[index + i] as u128;
        i += 1;
    }
    proof {
        assert(run.subrange(0, width as int) == run);
        lemma_be_value_bound(run);
    }
    val
}

/// Reads `width` bytes of `buf` from `index` on as one number, least
/// significant byte first.
pub fn load_le(buf: &[u8], index: usize, width: usize) -> (val: u128)
    requires
        width <= 16,
        index + width <= buf@.len(),
    ensures
        val == le_value(buf@.subrange(index as int, index + width)),
        val < radix(width as nat),
{
    let ghost run = buf@.subrange(index as int, index + width);
    let mut val: u128 = 0;
    let mut i: usize = width;
    while i > 0
        invariant
            i <= width <= 16,
            index + width <= buf.len(),
            run == buf@.subrange(index as int, index + width),
            val == le_value(run.subrange(i as int, width as int)),
        decreases i,
    {
        proof {
            lemma_le_value_suffix(run, i - 1);
            lemma_le_value_bound(run.subrange(i - 1, width as int));
            lemma_radix_mono((width - i) as nat + 1, 16);
            lemma_radix_values();
        }
        i -= 1;
        val = val * 256 + buf[index + i] as u128;
    }
    proof {
        assert(run.subrange(0, width as int) == run);
        lemma_le_value_bound(run);
    }
    val
}

/// Writes the `width` low-order bytes of `val` into `buf` from `index` on,
/// most significant byte first.
pub fn store_be(buf: &mut [u8], index: usize, width: usize, val: u128)
    requires
        width <= 16,
        index + width <= old(buf)@.len(),
    ensures
        final(buf)@ == splice(old(buf)@, index as int, be_bytes(val as nat, width as nat)),
{
    let mut rest: u128 = val;
    let mut i: usize = width;
    proof {
        lemma_bytes_len(val as nat, width as nat);
        assert(buf@ =~= splice(old(buf)@, index as int, buf@.subrange(index as int, index + width)));
    }
    while i > 0
        invariant
            i <= width <= 16,
            index + width <= buf.len(),
            buf@.len() == old(buf)@.len(),
            buf@ == splice(old(buf)@, index as int, buf@.subrange(index as int, index + width)),
            be_bytes(val as nat, width as nat) == be_bytes(rest as nat, i as nat) + buf@.subrange(
                index + i,
                index + width,
            ),
        decreases i,
    {
        let ghost before = buf@;
        i -= 1;
        buf[index + i] = (rest % 256) as u8;
        proof {
            let low = (rest % 256) as u8;
            assert(be_bytes(rest as nat, i as nat + 1) == be_bytes(rest as nat / 256, i as nat).push(
                low,
            ));
            assert(buf@.subrange(index + i, index + width) =~= seq![low] + before.subrange(
                index + i + 1,
                index + width,
            ));
            assert(be_bytes(val as nat, width as nat) =~= be_bytes(rest as nat / 256, i as nat)
                + buf@.subrange(index + i, index + width));
            assert(buf@ =~= splice(
                old(buf)@,
                index as int,
                buf@.subrange(index as int, index + width),
            ));
        }
        rest = rest / 256;
    }
    proof {
        assert(be_bytes(rest as nat, 0) =~= Seq::<u8>::empty());
        assert(be_bytes(val as nat, width as nat) =~= buf@.subrange(index as int, index + width));
    }
}

/// Writes the `width` low-order bytes of `val` into `buf` from `index` on,
/// least significant byte first.
pub fn store_le(buf: &mut [u8], index: usize, width: usize, val: u128)
    requires
        width <= 16,
        index + width <= old(buf)@.len(),
    ensures
        final(buf)@ == splice(old(buf)@, index as int, le_bytes(val as nat, width as nat)),
{
    let mut rest: u128 = val;
    let mut i: usize = 0;
    proof {
        lemma_bytes_len(val as nat, width as nat);
        assert(buf@ =~= splice(old(buf)@, index as int, buf@.subrange(index as int, index + width)));
        assert(le_bytes(val as nat, width as nat) =~= buf@.subrange(index as int, index as int)
            + le_bytes(val as nat, width as nat));
    }
    while i < width
        invariant
            i <= width <= 16,
            index + width <= buf.len(),
            buf@.len() == old(buf)@.len(),
            buf@ == splice(old(buf)@, index as int, buf@.subrange(index as int, index + width)),
            le_bytes(val as nat, width as nat) == buf@.subrange(index as int, index + i)
                + le_bytes(rest as nat, (width - i) as nat),
        decreases width - i,
    {
        let ghost before = buf@;
        buf[index + i] = (rest % 256) as u8;
        proof {
            let low = (rest % 256) as u8;
            assert(le_bytes(rest as nat, (width - i) as nat) == seq![low] + le_bytes(
                rest as nat / 256,
                (width - i - 1) as nat,
            ));
            assert(buf@.subrange(index as int, index + i + 1) =~= before.subrange(
                index as int,
                index + i,
            ) + seq![low]);
            assert(le_bytes(val as nat, width as nat) =~= buf@.subrange(index as int, index + i + 1)
                + le_bytes(rest as nat / 256, (width - i - 1) as nat));
            assert(buf@ =~= splice(
                old(buf)@,
                index as int,
                buf@.subrange(index as int, index + width),
            ));
        }
        rest = rest / 256;
        i += 1;
    }
    proof {
        assert(le_bytes(rest as nat, 0) =~= Seq::<u8>::empty());
        assert(le_bytes(val as nat, width as nat) =~= buf@.subrange(index as int, index + width));
    }
}

/// Copies the first `count` bytes of `src` into `dst` from `at` on.
pub fn copy_in(dst: &mut [u8], at: usize, src: &[u8], count: usize)
    requires
        count <= src@.len(),
        at + count <= old(dst)@.len(),
    ensures
        final(dst)@ == splice(old(dst)@, at as int, src@.subrange(0, count as int)),
{
    let mut i: usize = 0;
    proof {
        assert(dst@ =~= splice(old(dst)@, at as int, src@.subrange(0, 0)));
    }
    while i < count
        invariant
            i <= count <= src.len(),
            at + count <= dst.len(),
            dst@.len() == old(dst)@.len(),
            dst@ == splice(old(dst)@, at as int, src@.subrange(0, i as int)),
        decreases count - i,
    {
        dst[at + i] = src[i];
        i += 1;
        proof {
            assert(dst@ =~= splice(old(dst)@, at as int, src@.subrange(0, i as int)));
        }
    }
}

/// Copies `count` bytes of `src`, from `at` on, to the front of `dst`.
pub fn copy_out(src: &[u8], at: usize, dst: &mut [u8], count: usize)
    requires
        count <= old(dst)@.len(),
        at + count <= src@.len(),
    ensures
        final(dst)@ == splice(old(dst)@, 0, src@.subrange(at as int, at + count)),
{
    let mut i: usize = 0;
    proof {
        assert(dst@ =~= splice(old(dst)@, 0, src@.subrange(at as int, at as int)));
    }
    while i < count
        invariant
            i <= count <= dst.len(),
            at + count <= src.len(),
            dst@.len() == old(dst)@.len(),
            dst@ == splice(old(dst)@, 0, src@.subrange(at as int, at + i)),
        decreases count - i,
    {
        dst[i] = src[at + i];
        i += 1;
        proof {
            assert(dst@ =~= splice(old(dst)@, 0, src@.subrange(at as int, at + i)));
        }
    }
}

} // verus!
