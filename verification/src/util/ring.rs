//! Indices of a ring buffer.

use vstd::arithmetic::div_mod::{
    lemma_fundamental_div_mod, lemma_fundamental_div_mod_converse, lemma_mod_mod,
};
use vstd::arithmetic::power2::{lemma2_to64, lemma_pow2_adds, lemma_pow2_pos, pow2};
use vstd::bits::{lemma_u32_low_bits_mask_is_mod, lemma_u32_pow2_no_overflow, low_bits_mask};
use vstd::prelude::*;

verus! {

/// Distinct ranks less than a whole buffer apart have distinct indices.
pub proof fn lemma_distinct_indices(a: int, b: int, capacity: int)
    requires
        a < b < a + capacity,
    ensures
        a % capacity != b % capacity,
{
    if a % capacity == b % capacity {
        lemma_fundamental_div_mod(a, capacity);
        lemma_fundamental_div_mod(b, capacity);
        let d = b / capacity - a / capacity;
        assert(b - a == capacity * d) by (nonlinear_arith)
            requires
                a == capacity * (a / capacity) + a % capacity,
                b == capacity * (b / capacity) + b % capacity,
                a % capacity == b % capacity,
                d == b / capacity - a / capacity,
        ;
        assert(false) by (nonlinear_arith)
            requires
                0 < capacity * d < capacity,
                capacity >= 1,
        ;
    }
}

/// Number of values of a `u32`.
pub open spec fn two_to_32() -> int {
    0x1_0000_0000
}

/// The position of an item of rank `n`, which wraps around.
pub open spec fn wrapped(n: int) -> u32 {
    (n % two_to_32()) as u32
}

/// The wrapping difference of two positions is the difference of their ranks.
pub proof fn lemma_wrapped_difference(a: int, b: int)
    requires
        0 <= a <= b < a + two_to_32(),
    ensures
        wrapped(b).wrapping_sub(wrapped(a)) == b - a,
        wrapped(a) == wrapped(b) ==> a == b,
{
    let m = two_to_32();
    lemma_fundamental_div_mod(a, m);
    lemma_fundamental_div_mod(b, m);
}

/// The wrapping sum of a position and a count is the position of the sum.
pub proof fn lemma_wrapped_sum(a: int, count: u32)
    requires
        0 <= a,
    ensures
        wrapped(a).wrapping_add(count) == wrapped(a + count),
{
    let m = two_to_32();
    let sum = a % m + count;
    lemma_fundamental_div_mod(a, m);
    if sum < m {
        lemma_fundamental_div_mod_converse(a + count, m, a / m, sum);
    } else {
        lemma_fundamental_div_mod_converse(a + count, m, a / m + 1, sum - m);
    }
}

/// Whether a buffer with the given capacity can be indexed by masking a
/// position.
pub open spec fn is_buffer_capacity(capacity: usize) -> bool {
    exists|k: nat| k < 32 && capacity == #[trigger] pow2(k)
}

/// Masking a position gives the index of the item.
pub proof fn lemma_masked(n: int, capacity: usize)
    requires
        0 <= n,
        is_buffer_capacity(capacity),
    ensures
        1 <= capacity <= 0x8000_0000,
        wrapped(n) & ((capacity - 1) as u32) == n % (capacity as int),
{
    let k = choose|k: nat| k < 32 && capacity == #[trigger] pow2(k);
    lemma_pow2_pos(k);
    lemma_u32_pow2_no_overflow(k);
    lemma2_to64();
    lemma_pow2_adds(k, (32 - k) as nat);
    lemma_pow2_pos((32 - k) as nat);
    assert(low_bits_mask(k) as u32 == (capacity - 1) as u32);
    lemma_u32_low_bits_mask_is_mod(wrapped(n), k);
    lemma_mod_mod(n, pow2(k) as int, pow2((32 - k) as nat) as int);
    assert(pow2(k) <= 0x8000_0000) by {
        lemma_pow2_adds(k, (31 - k) as nat);
        lemma_pow2_pos((31 - k) as nat);
        let p = pow2(k);
        let q = pow2((31 - k) as nat);
        assert(p <= p * q) by (nonlinear_arith)
            requires
                q >= 1,
                p >= 1,
        ;
    }
}

} // verus!
