//! Bit masks and powers of two.

use vstd::arithmetic::power2::{
    lemma2_to64, lemma2_to64_rest, lemma_pow2_pos, lemma_pow2_unfold, pow2,
};
use vstd::bits::{lemma_usize_low_bits_mask_is_mod, lemma_usize_pow2_no_overflow, low_bits_mask};
use vstd::prelude::*;

verus! {

/// The number of values of a `usize`.
pub proof fn lemma_usize_modulus()
    ensures
        pow2(usize::BITS as nat) == usize::MAX + 1,
{
    lemma2_to64();
    lemma2_to64_rest();
}

/// Masking with `2^k - 1` is the remainder of a division by `2^k`.
pub proof fn lemma_low_mask(x: usize, mask: usize, k: nat)
    requires
        k < usize::BITS,
        mask == pow2(k) - 1,
    ensures
        (x & mask) as int == (x as int) % (pow2(k) as int),
{
    lemma_usize_pow2_no_overflow(k);
    lemma_usize_low_bits_mask_is_mod(x, k);
    assert(low_bits_mask(k) as usize == mask);
}

/// Clearing the bits of a mask takes away what the mask selects.
pub proof fn lemma_clear_mask(x: usize, mask: usize)
    ensures
        x & !mask == x - (x & mask),
{
    assert(x & !mask == x - (x & mask)) by (bit_vector);
}

/// Setting bits that are all cleared adds the mask.
pub proof fn lemma_set_mask(x: usize, mask: usize)
    requires
        x & mask == 0,
    ensures
        x | mask == x + mask,
        (x | mask) & mask == mask,
{
    assert(x | mask == x + mask && (x | mask) & mask == mask) by (bit_vector)
        requires
            x & mask == 0,
    ;
}

/// A bit that is already set is left as it is.
pub proof fn lemma_set_mask_again(x: usize, mask: usize)
    ensures
        (x | mask) | mask == x | mask,
{
    assert((x | mask) | mask == x | mask) by (bit_vector);
}

/// The bit of weight `2^k` is selected by the difference between the masks
/// that cover `k + 1` and `k` bits.
pub proof fn lemma_single_bit(x: usize, bit: usize, k: nat)
    requires
        k + 1 < usize::BITS,
        bit == pow2(k),
    ensures
        (x & bit) as int == (x as int) % (2 * pow2(k) as int) - (x as int) % (pow2(k) as int),
{
    lemma_usize_pow2_no_overflow(k);
    lemma_usize_pow2_no_overflow(k + 1);
    lemma_pow2_unfold(k + 1);
    lemma_pow2_pos(k);
    let low: usize = (bit - 1) as usize;
    let wide: usize = (2 * bit - 1) as usize;
    lemma_low_mask(x, low, k);
    lemma_low_mask(x, wide, k + 1);
    assert(bit & low == 0) by {
        lemma_low_mask(bit, low, k);
        assert((bit as int) % (bit as int) == 0) by (nonlinear_arith)
            requires
                bit > 0,
        ;
    }
    lemma_set_mask(bit, low);
    assert(bit | low == wide);
    assert((x & bit) + (x & low) == x & wide) by (bit_vector)
        requires
            bit & low == 0,
            bit | low == wide,
    ;
}

/// The smallest power of two that is no less than the argument, with its
/// exponent.
pub fn next_power_of_two(n: usize) -> (r: (usize, Ghost<nat>))
    requires
        1 <= n <= pow2((usize::BITS - 2) as nat),
    ensures
        r.0 == pow2(r.1@),
        r.1@ <= usize::BITS - 2,
        n <= r.0,
        r.1@ == 0 || pow2((r.1@ - 1) as nat) < n,
{
    let mut power: usize = 1;
    let ghost mut k: nat = 0;
    proof {
        lemma2_to64();
        lemma_usize_pow2_no_overflow((usize::BITS - 2) as nat);
    }
    while power < n
        invariant
            power == pow2(k),
            k <= usize::BITS - 2,
            n <= pow2((usize::BITS - 2) as nat) < usize::MAX,
            k == 0 || pow2((k - 1) as nat) < n,
        decreases usize::MAX - power,
    {
        proof {
            if k >= usize::BITS - 2 {
                assert(k == usize::BITS - 2);
            }
            lemma_pow2_unfold(k + 1);
            lemma_usize_pow2_no_overflow(k + 1);
            lemma_pow2_pos(k);
        }
        power = 2 * power;
        proof {
            k = k + 1;
        }
    }
    (power, Ghost(k))
}

/// The largest capacity of a buffer whose positions keep one bit beyond the
/// index and one bit for a turn count.
pub open spec fn max_capacity() -> nat {
    pow2((usize::BITS - 2) as nat)
}

/// A quarter of all values of a `usize` can be the capacity of a buffer.
pub proof fn law_max_capacity()
    ensures
        4 * max_capacity() == usize::MAX + 1,
{
    lemma_usize_modulus();
    lemma_pow2_unfold(usize::BITS as nat);
    lemma_pow2_unfold((usize::BITS - 1) as nat);
}

} // verus!
