//! CRC-32, the checksum that protects the type tag and payload of every
//! chunk.

use vstd::prelude::*;

verus! {

/// Reflected form of the CRC-32 generator polynomial.
pub const POLYNOMIAL: u32 = 0xEDB8_8320;

/// One shift of the checksum register: the low bit leaves, and where it was
/// set the polynomial is folded in.
pub open spec fn shift_bit(reg: u32) -> u32 {
    if reg & 1 == 1 {
        (reg >> 1) ^ POLYNOMIAL
    } else {
        reg >> 1
    }
}

/// Eight shifts in a row.
pub open spec fn shift_byte(reg: u32) -> u32 {
    shift_bit(shift_bit(shift_bit(shift_bit(shift_bit(shift_bit(shift_bit(shift_bit(reg))))))))
}

/// The register after one more byte of input.
pub open spec fn feed(reg: u32, byte: u8) -> u32 {
    shift_byte(reg ^ (byte as u32))
}

/// The register after every byte of `data`, starting from `reg`.
pub open spec fn feed_all(reg: u32, data: Seq<u8>) -> u32
    decreases data.len(),
{
    if data.len() == 0 {
        reg
    } else {
        feed(feed_all(reg, data.drop_last()), data.last())
    }
}

/// CRC-32 of `data`: the register starts with all bits set and is inverted
/// at the end.
pub open spec fn crc32(data: Seq<u8>) -> u32 {
    feed_all(0xFFFF_FFFFu32, data) ^ 0xFFFF_FFFFu32
}

/// `byte` with bit number `bit` inverted.
pub open spec fn flip_bit(byte: u8, bit: u8) -> u8 {
    byte ^ (1u8 << bit)
}

/// Feeding a byte loses nothing: equal results come from registers and
/// bytes whose exclusive-or is equal.
proof fn lemma_feed_cancels(r1: u32, b1: u8, r2: u32, b2: u8)
    by (bit_vector)
    requires
        feed(r1, b1) == feed(r2, b2),
    ensures
        r1 == r2 <==> b1 == b2,
{
}

/// Inverting the register loses nothing.
proof fn lemma_invert_injective(x: u32, y: u32)
    by (bit_vector)
    requires
        x ^ 0xFFFF_FFFFu32 == y ^ 0xFFFF_FFFFu32,
    ensures
        x == y,
{
}

/// Inverting one bit of a byte gives another byte.
pub proof fn lemma_flip_bit_differs(byte: u8, bit: u8)
    by (bit_vector)
    requires
        bit < 8,
    ensures
        flip_bit(byte, bit) != byte,
{
}

/// Feeding `a` and then `b` is feeding `a + b`.
pub proof fn lemma_feed_all_concat(reg: u32, a: Seq<u8>, b: Seq<u8>)
    ensures
        feed_all(reg, a + b) == feed_all(feed_all(reg, a), b),
    decreases b.len(),
{
    if b.len() == 0 {
        assert(a + b =~= a);
    } else {
        assert((a + b).drop_last() =~= a + b.drop_last());
        assert((a + b).last() == b.last());
        lemma_feed_all_concat(reg, a, b.drop_last());
    }
}

/// Two inputs of one length that differ in exactly one byte leave the
/// register in different states.
pub proof fn lemma_feed_all_one_byte(reg: u32, a: Seq<u8>, b: Seq<u8>, i: int)
    requires
        a.len() == b.len(),
        0 <= i < a.len(),
        a[i] != b[i],
        forall|j: int| 0 <= j < a.len() && j != i ==> a[j] == b[j],
    ensures
        feed_all(reg, a) != feed_all(reg, b),
    decreases a.len(),
{
    let n = a.len() as int;
    let ra = feed_all(reg, a.drop_last());
    let rb = feed_all(reg, b.drop_last());
    if i == n - 1 {
        assert(a.drop_last() =~= b.drop_last());
    } else {
        lemma_feed_all_one_byte(reg, a.drop_last(), b.drop_last(), i);
    }
    if feed(ra, a.last()) == feed(rb, b.last()) {
        lemma_feed_cancels(ra, a.last(), rb, b.last());
    }
}

/// The checksum tells apart any two inputs of one length that differ in
/// exactly one byte; in particular it sees every single inverted bit.
pub proof fn lemma_crc32_one_byte(a: Seq<u8>, b: Seq<u8>, i: int)
    requires
        a.len() == b.len(),
        0 <= i < a.len(),
        a[i] != b[i],
        forall|j: int| 0 <= j < a.len() && j != i ==> a[j] == b[j],
    ensures
        crc32(a) != crc32(b),
{
    lemma_feed_all_one_byte(0xFFFF_FFFFu32, a, b, i);
    if crc32(a) == crc32(b) {
        lemma_invert_injective(feed_all(0xFFFF_FFFFu32, a), feed_all(0xFFFF_FFFFu32, b));
    }
}

/// Shifts the register once.
fn step_bit(reg: u32) -> (out: u32)
    ensures
        out == shift_bit(reg),
{
    if reg & 1 == 1 {
        (reg >> 1) ^ POLYNOMIAL
    } else {
        reg >> 1
    }
}

/// Feeds one byte to the register.
pub fn step(reg: u32, byte: u8) -> (out: u32)
    ensures
        out == feed(reg, byte),
{
    let mut r: u32 = reg ^ (byte as u32);
    r = step_bit(r);
    r = step_bit(r);
    r = step_bit(r);
    r = step_bit(r);
    r = step_bit(r);
    r = step_bit(r);
    r = step_bit(r);
    step_bit(r)
}

/// Feeds `data[from..to]` to the register.
pub fn update(reg: u32, data: &[u8], from: usize, to: usize) -> (out: u32)
    requires
        from <= to <= data@.len(),
    ensures
        out == feed_all(reg, data@.subrange(from as int, to as int)),
{
    let mut r: u32 = reg;
    let mut i: usize = from;
    while i < to
        invariant
            from <= i <= to <= data@.len(),
            r == feed_all(reg, data@.subrange(from as int, i as int)),
        decreases to - i,
    {
        proof {
            let next = data@.subrange(from as int, i + 1);
            assert(next.drop_last() =~= data@.subrange(from as int, i as int));
            assert(next.last() == data@[i as int]);
        }
        r = step(r, data[i]);
        i = i + 1;
    }
    r
}

/// CRC-32 of `data[from..to]`.
pub fn checksum(data: &[u8], from: usize, to: usize) -> (out: u32)
    requires
        from <= to <= data@.len(),
    ensures
        out == crc32(data@.subrange(from as int, to as int)),
{
    update(0xFFFF_FFFFu32, data, from, to) ^ 0xFFFF_FFFFu32
}

} // verus!
