//! Fixed-width little-endian integers, as arithmetic on byte sequences.

use vstd::prelude::*;

verus! {

/// The number of values that `width` bytes can tell apart: `256^width`.
pub open spec fn radix(width: nat) -> nat
    decreases width,
{
    if width == 0 {
        1
    } else {
        256 * radix((width - 1) as nat)
    }
}

/// The low `width` bytes of `value`, least significant first.
pub open spec fn le_bytes(value: nat, width: nat) -> Seq<u8>
    decreases width,
{
    if width == 0 {
        Seq::empty()
    } else {
        seq![(value % 256) as u8] + le_bytes(value / 256, (width - 1) as nat)
    }
}

/// The number that `bytes` spell, least significant byte first.
pub open spec fn le_value(bytes: Seq<u8>) -> nat
    decreases bytes.len(),
{
    if bytes.len() == 0 {
        0
    } else {
        bytes[0] as nat + 256 * le_value(bytes.drop_first())
    }
}

/// The two's complement of `value` in `width` bytes.
pub open spec fn twos_complement(value: int, width: nat) -> nat {
    if value < 0 {
        (value + radix(width)) as nat
    } else {
        value as nat
    }
}

/// The signed number whose two's complement in `width` bytes is `pattern`.
pub open spec fn from_twos_complement(pattern: nat, width: nat) -> int {
    if 2 * pattern >= radix(width) {
        pattern - radix(width)
    } else {
        pattern as int
    }
}

/// The radix of each width that the codec writes.
pub proof fn lemma_radix_values()
    ensures
        radix(0) == 1,
        radix(1) == 0x100,
        radix(2) == 0x1_0000,
        radix(4) == 0x1_0000_0000,
        radix(8) == 0x1_0000_0000_0000_0000,
        radix(16) == 0x1_0000_0000_0000_0000_0000_0000_0000_0000,
{
    reveal_with_fuel(radix, 17);
}

/// More bytes never tell fewer values apart.
pub proof fn lemma_radix_monotonic(narrow: nat, wide: nat)
    requires
        narrow <= wide,
    ensures
        0 < radix(narrow) <= radix(wide),
    decreases wide,
{
    if narrow < wide {
        lemma_radix_monotonic(narrow, (wide - 1) as nat);
    } else if wide > 0 {
        lemma_radix_monotonic((narrow - 1) as nat, (wide - 1) as nat);
    }
}

/// `le_bytes` yields exactly `width` bytes.
pub proof fn lemma_le_bytes_len(value: nat, width: nat)
    ensures
        le_bytes(value, width).len() == width,
    decreases width,
{
    if width > 0 {
        lemma_le_bytes_len(value / 256, (width - 1) as nat);
    }
}

/// The number spelled by `n` bytes is below `256^n`.
pub proof fn lemma_le_value_bound(bytes: Seq<u8>)
    ensures
        le_value(bytes) < radix(bytes.len()),
    decreases bytes.len(),
{
    if bytes.len() > 0 {
        lemma_le_value_bound(bytes.drop_first());
    }
}

/// Reading back the bytes of a number that fits yields the number.
pub proof fn lemma_le_value_of_bytes(value: nat, width: nat)
    requires
        value < radix(width),
    ensures
        le_value(le_bytes(value, width)) == value,
    decreases width,
{
    if width > 0 {
        let rest = le_bytes(value / 256, (width - 1) as nat);
        lemma_le_value_of_bytes(value / 256, (width - 1) as nat);
        assert(le_bytes(value, width).drop_first() =~= rest);
    }
}

/// Two's complement and its inverse cancel on every value of the width.
pub proof fn lemma_twos_complement_inverse(value: int, width: nat)
    requires
        width > 0,
        -(radix(width) as int) <= 2 * value < radix(width),
    ensures
        twos_complement(value, width) < radix(width),
        from_twos_complement(twos_complement(value, width), width) == value,
{
}

/// Appends the low `width` bytes of `value` to `sink`, least significant first.
pub(crate) fn put_le(sink: &mut Vec<u8>, value: u128, width: usize)
    requires
        width <= 16,
    ensures
        final(sink)@ == old(sink)@ + le_bytes(value as nat, width as nat),
{
    let ghost target = sink@ + le_bytes(value as nat, width as nat);
    let mut left: u128 = value;
    let mut count: usize = 0;
    while count < width
        invariant
            count <= width,
            target == sink@ + le_bytes(left as nat, (width - count) as nat),
        decreases width - count,
    {
        let ghost before = sink@;
        sink.push((left % 256) as u8);
        proof {
            assert(before + le_bytes(left as nat, (width - count) as nat) =~= sink@ + le_bytes(
                (left / 256) as nat,
                (width - count - 1) as nat,
            ));
        }
        left = left / 256;
        count += 1;
    }
    assert(sink@ + le_bytes(left as nat, 0) =~= sink@);
}

/// The number that at most sixteen bytes spell, least significant first.
pub(crate) fn get_le(bytes: &[u8]) -> (value: u128)
    requires
        bytes@.len() <= 16,
    ensures
        value == le_value(bytes@),
{
    let mut value: u128 = 0;
    let mut index: usize = bytes.len();
    assert(bytes@.skip(index as int) =~= Seq::<u8>::empty());
    while index > 0
        invariant
            index <= bytes@.len() <= 16,
            value == le_value(bytes@.skip(index as int)),
        decreases index,
    {
        proof {
            let tail = bytes@.skip(index as int);
            lemma_le_value_bound(tail);
            lemma_radix_monotonic(tail.len(), 15);
            lemma_radix_values();
            assert(radix(16) == 256 * radix(15));
            assert(bytes@.skip(index - 1).drop_first() =~= tail);
        }
        index -= 1;
        value = value * 256 + bytes[index] as u128;
    }
    assert(bytes@.skip(0) =~= bytes@);
    value
}

} // verus!
