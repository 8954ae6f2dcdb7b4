//! Little-endian byte strings as numbers.
//!
//! A byte string spells a number in base 256 with its least significant digit
//! first. [`le_value`] reads that number and [`le_bytes`] writes it; the
//! lemmas show that, at a fixed width, the two are inverse to each other.

use vstd::arithmetic::power::pow;
use vstd::prelude::*;

verus! {

/// The number that `bytes` spells, least significant byte first:
/// `bytes[0] + 256 * bytes[1] + 256^2 * bytes[2] + ...`.
pub open spec fn le_value(bytes: Seq<u8>) -> nat
    decreases bytes.len(),
{
    if bytes.len() == 0 {
        0
    } else {
        bytes[0] as nat + 256 * le_value(bytes.drop_first())
    }
}

/// The `width` lowest base-256 digits of `value`, least significant first.
pub open spec fn le_bytes(value: nat, width: nat) -> Seq<u8>
    decreases width,
{
    if width == 0 {
        Seq::empty()
    } else {
        seq![(value % 256) as u8] + le_bytes(value / 256, (width - 1) as nat)
    }
}

/// One more byte multiplies the number of values by 256.
pub proof fn lemma_pow256_step(width: nat)
    ensures
        pow(256, 0) == 1,
        pow(256, width + 1) == 256 * pow(256, width),
        pow(256, width) > 0,
    decreases width,
{
    reveal(pow);
    if width > 0 {
        lemma_pow256_step((width - 1) as nat);
    }
}

/// What seven and eight bytes can hold; the latter is the range of a `u64`.
pub proof fn lemma_pow256_u64()
    ensures
        pow(256, 7) == 0x100_0000_0000_0000,
        pow(256, 8) == u64::MAX + 1,
{
    lemma_pow256_step(0);
    lemma_pow256_step(1);
    lemma_pow256_step(2);
    lemma_pow256_step(3);
    lemma_pow256_step(4);
    lemma_pow256_step(5);
    lemma_pow256_step(6);
    lemma_pow256_step(7);
}

/// `le_bytes` writes exactly `width` bytes.
pub proof fn lemma_le_bytes_len(value: nat, width: nat)
    ensures
        le_bytes(value, width).len() == width,
    decreases width,
{
    if width > 0 {
        lemma_le_bytes_len(value / 256, (width - 1) as nat);
    }
}

/// A string of `n` bytes spells a number below `256^n`.
pub proof fn lemma_le_value_bound(bytes: Seq<u8>)
    ensures
        le_value(bytes) < pow(256, bytes.len()),
    decreases bytes.len(),
{
    lemma_pow256_step(0);
    if bytes.len() > 0 {
        let rest = bytes.drop_first();
        lemma_le_value_bound(rest);
        lemma_pow256_step(rest.len());
    }
}

/// Reading what was written gives the number back, provided it fits in
/// `width` bytes.
pub proof fn lemma_le_value_of_le_bytes(value: nat, width: nat)
    requires
        value < pow(256, width),
    ensures
        le_value(le_bytes(value, width)) == value,
    decreases width,
{
    lemma_pow256_step(0);
    if width > 0 {
        let rest = le_bytes(value / 256, (width - 1) as nat);
        let written = le_bytes(value, width);
        lemma_pow256_step((width - 1) as nat);
        lemma_le_value_of_le_bytes(value / 256, (width - 1) as nat);
        assert(written.drop_first() =~= rest);
    }
}

/// Writing what was read, at the same width, gives the bytes back.
pub proof fn lemma_le_bytes_of_le_value(bytes: Seq<u8>)
    ensures
        le_bytes(le_value(bytes), bytes.len()) == bytes,
    decreases bytes.len(),
{
    if bytes.len() > 0 {
        let rest = bytes.drop_first();
        lemma_le_bytes_of_le_value(rest);
        assert(le_value(bytes) % 256 == bytes[0] as nat);
        assert(le_value(bytes) / 256 == le_value(rest));
        assert(le_bytes(le_value(bytes), bytes.len()) =~= bytes);
    } else {
        assert(le_bytes(le_value(bytes), bytes.len()) =~= bytes);
    }
}

/// The value of eight bytes, digit by digit; it fits in a `u64`.
pub proof fn lemma_le_value_u64(bytes: Seq<u8>)
    requires
        bytes.len() == 8,
    ensures
        le_value(bytes) == bytes[0] + 0x100 * bytes[1] + 0x1_0000 * bytes[2] + 0x100_0000
            * bytes[3] + 0x1_0000_0000 * bytes[4] + 0x100_0000_0000 * bytes[5]
            + 0x1_0000_0000_0000 * bytes[6] + 0x100_0000_0000_0000 * bytes[7],
        le_value(bytes) <= u64::MAX,
{
    reveal_with_fuel(le_value, 9);
}

} // verus!
