//! Little-endian integers: a value is stored as its base-256 digits, least
//! significant digit first.

use vstd::prelude::*;

verus! {

/// How many values `width` bytes can tell apart: 256 to the power `width`.
pub open spec fn byte_range(width: nat) -> nat
    decreases width,
{
    if width == 0 {
        1
    } else {
        256 * byte_range((width - 1) as nat)
    }
}

/// The number that `bytes` denotes when the first byte is the least
/// significant digit.
pub open spec fn le_value(bytes: Seq<u8>) -> nat
    decreases bytes.len(),
{
    if bytes.len() == 0 {
        0
    } else {
        bytes[0] as nat + 256 * le_value(bytes.drop_first())
    }
}

/// The `width` low-order base-256 digits of `value`, least significant first.
pub open spec fn le_digits(value: nat, width: nat) -> Seq<u8>
    decreases width,
{
    if width == 0 {
        Seq::empty()
    } else {
        seq![(value % 256) as u8] + le_digits(value / 256, (width - 1) as nat)
    }
}

/// The unsigned 64-bit pattern that stores `value` in two's complement.
pub open spec fn twos_complement(value: i64) -> nat {
    if value >= 0 {
        value as nat
    } else {
        (value + 0x1_0000_0000_0000_0000) as nat
    }
}

/// The signed number that the 64-bit pattern `bits` stores in two's complement.
pub open spec fn from_twos_complement(bits: nat) -> i64 {
    if bits < 0x8000_0000_0000_0000 {
        bits as i64
    } else {
        (bits - 0x1_0000_0000_0000_0000) as i64
    }
}

/// Four bytes tell 2^32 values apart and eight bytes 2^64.
pub proof fn lemma_byte_range_of_fields()
    ensures
        byte_range(4) == 0x1_0000_0000,
        byte_range(8) == 0x1_0000_0000_0000_0000,
{
    reveal_with_fuel(byte_range, 9);
}

/// More bytes never tell fewer values apart.
pub proof fn lemma_byte_range_grows(narrow: nat, wide: nat)
    requires
        narrow <= wide,
    ensures
        1 <= byte_range(narrow) <= byte_range(wide),
    decreases wide,
{
    if narrow < wide {
        lemma_byte_range_grows(narrow, (wide - 1) as nat);
    } else if wide > 0 {
        lemma_byte_range_grows((narrow - 1) as nat, (wide - 1) as nat);
    }
}

/// `le_digits` yields exactly `width` bytes.
pub proof fn lemma_le_digits_len(value: nat, width: nat)
    ensures
        le_digits(value, width).len() == width,
    decreases width,
{
    if width > 0 {
        lemma_le_digits_len(value / 256, (width - 1) as nat);
    }
}

/// A byte sequence denotes a number below the range of its length.
pub proof fn lemma_le_value_bound(bytes: Seq<u8>)
    ensures
        le_value(bytes) < byte_range(bytes.len()),
    decreases bytes.len(),
{
    if bytes.len() > 0 {
        lemma_le_value_bound(bytes.drop_first());
    }
}

/// Reading back the digits of a value that fits in `width` bytes gives the
/// value.
pub proof fn lemma_value_of_digits(value: nat, width: nat)
    requires
        value < byte_range(width),
    ensures
        le_value(le_digits(value, width)) == value,
    decreases width,
{
    if width > 0 {
        let rest = le_digits(value / 256, (width - 1) as nat);
        lemma_value_of_digits(value / 256, (width - 1) as nat);
        assert(le_digits(value, width).drop_first() =~= rest);
    }
}

/// Writing out the number that `bytes` denotes, at the same width, gives
/// `bytes` again.
pub proof fn lemma_digits_of_value(bytes: Seq<u8>)
    ensures
        le_digits(le_value(bytes), bytes.len()) == bytes,
    decreases bytes.len(),
{
    if bytes.len() > 0 {
        lemma_digits_of_value(bytes.drop_first());
    }
}

/// Two's complement and its inverse undo each other on every `i64`.
pub proof fn lemma_twos_complement_inverse(value: i64)
    ensures
        twos_complement(value) < 0x1_0000_0000_0000_0000,
        from_twos_complement(twos_complement(value)) == value,
{
}

/// Two's complement and its inverse undo each other on every 64-bit pattern.
pub proof fn lemma_from_twos_complement_inverse(bits: nat)
    requires
        bits < 0x1_0000_0000_0000_0000,
    ensures
        twos_complement(from_twos_complement(bits)) == bits,
{
}

/// The 64-bit pattern that stores `value` in two's complement.
pub fn to_unsigned(value: i64) -> (bits: u64)
    ensures
        bits == twos_complement(value),
{
    if value >= 0 {
        value as u64
    } else {
        ((value + i64::MAX) + 1) as u64 + 0x8000_0000_0000_0000
    }
}

/// The signed number that `bits` stores in two's complement.
pub fn to_signed(bits: u64) -> (value: i64)
    ensures
        value == from_twos_complement(bits as nat),
{
    if bits < 0x8000_0000_0000_0000 {
        bits as i64
    } else {
        ((bits - 0x8000_0000_0000_0000) as i64 - i64::MAX) - 1
    }
}

/// Stores the `width` low-order digits of `value` in `buf[start..start + width]`,
/// least significant first, and leaves the rest of `buf` as it was.
pub fn store_le<const N: usize>(buf: &mut [u8; N], start: usize, width: usize, value: u64)
    requires
        start + width <= N,
    ensures
        final(buf)@ == old(buf)@.subrange(0, start as int) + le_digits(value as nat, width as nat)
            + old(buf)@.subrange(start + width, N as int),
{
    let ghost before = buf@;
    let mut rest: u64 = value;
    let mut done: usize = 0;
    proof {
        lemma_le_digits_len(value as nat, width as nat);
    }
    while done < width
        invariant
            done <= width,
            start + width <= N,
            before.len() == N,
            buf@.len() == N,
            forall|i: int| 0 <= i < start || start + width <= i < N ==> buf@[i] == before[i],
            le_digits(value as nat, width as nat) == buf@.subrange(start as int, start + done)
                + le_digits(rest as nat, (width - done) as nat),
        decreases width - done,
    {
        buf[start + done] = (rest % 256) as u8;
        rest = rest / 256;
        done = done + 1;
    }
}

/// Reads `buf[start..start + width]` as a little-endian number.
pub fn load_le<const N: usize>(buf: &[u8; N], start: usize, width: usize) -> (value: u64)
    requires
        start + width <= N,
        width <= 8,
    ensures
        value == le_value(buf@.subrange(start as int, start + width)),
{
    let ghost field = buf@.subrange(start as int, start + width);
    let mut value: u64 = 0;
    let mut left: usize = width;
    while left > 0
        invariant
            left <= width <= 8,
            start + width <= N,
            buf@.len() == N,
            field == buf@.subrange(start as int, start + width),
            value == le_value(field.subrange(left as int, width as int)),
        decreases left,
    {
        let ghost tail = field.subrange(left as int, width as int);
        left = left - 1;
        let digit: u8 = buf[start + left];
        proof {
            lemma_le_value_bound(tail);
            lemma_byte_range_grows(tail.len(), 7);
            lemma_byte_range_of_fields();
            reveal_with_fuel(byte_range, 2);
            assert(field.subrange(left as int, width as int).drop_first() =~= tail);
        }
        value = value * 256 + digit as u64;
    }
    proof {
        assert(field.subrange(0, width as int) =~= field);
    }
    value
}

} // verus!
